//! Running a program one cycle at a time.
use std::collections::{BTreeSet, VecDeque};

use miden_core::serde::Serializable;
use miden_processor::ResumeContext;
use vstd::prelude::*;

use crate::debug::op::{AssemblyOp, AssemblyOpView, Location, Operation, OP_END};
use crate::debug::stacktrace::{CallFrame, CallStack, StackView, StepInfo};
use crate::exec::trace::{ExecutionTrace, StackOutputs};

verus! {

// ---------------------------------------------------------------------------------------------
// What comes next
// ---------------------------------------------------------------------------------------------

/// What the virtual machine has left to do.
#[derive(Debug)]
pub enum Continuation {
    /// A node of the program is about to be entered.
    StartNode(u32),
    /// A block of straight-line code is about to end.
    FinishBasicBlock,
    /// A block of straight-line code goes on, with the given operation of the given batch.
    ResumeBasicBlock {
        node_id: u32,
        batch_index: usize,
        op_idx_in_batch: usize,
        /// The operations of the block, batch by batch; none where the node is no such block.
        batches: Option<Vec<Vec<Operation>>>,
    },
    /// Anything else.
    Other {
        /// Whether it takes a cycle.
        increments_clk: bool,
    },
}

/// What a [`Continuation`] says.
pub enum ContinuationView {
    StartNode(u32),
    FinishBasicBlock,
    ResumeBasicBlock {
        node_id: u32,
        batch_index: usize,
        op_idx_in_batch: usize,
        batches: Option<Seq<Seq<Operation>>>,
    },
    Other { increments_clk: bool },
}

/// The operations of batches.
pub open spec fn batch_views(batches: Seq<Vec<Operation>>) -> Seq<Seq<Operation>> {
    batches.map_values(|b: Vec<Operation>| b@)
}

impl View for Continuation {
    type V = ContinuationView;

    open spec fn view(&self) -> ContinuationView {
        match self {
            Continuation::StartNode(node) => ContinuationView::StartNode(*node),
            Continuation::FinishBasicBlock => ContinuationView::FinishBasicBlock,
            Continuation::ResumeBasicBlock { node_id, batch_index, op_idx_in_batch, batches } => {
                ContinuationView::ResumeBasicBlock {
                    node_id: *node_id,
                    batch_index: *batch_index,
                    op_idx_in_batch: *op_idx_in_batch,
                    batches: match batches {
                        Some(batches) => Some(batch_views(batches@)),
                        None => None,
                    },
                }
            },
            Continuation::Other { increments_clk } => ContinuationView::Other {
                increments_clk: *increments_clk,
            },
        }
    }
}

/// What continuations say.
pub open spec fn continuation_views(continuations: Seq<Continuation>) -> Seq<ContinuationView> {
    continuations.map_values(|c: Continuation| c@)
}

/// The operation that comes next, and where it stands in the program.
#[derive(Debug)]
pub struct UpcomingOp {
    pub op: Option<Operation>,
    /// The node the operation belongs to.
    pub node_id: Option<u32>,
    /// The number of the operation in its block.
    pub op_idx: Option<usize>,
}

/// How many operations stand in the first `n` batches.
pub open spec fn ops_before(batches: Seq<Seq<Operation>>, n: nat) -> nat
    decreases n,
{
    if n == 0 {
        0
    } else {
        ops_before(batches, (n - 1) as nat) + batches[n - 1].len()
    }
}

impl ContinuationView {
    /// Whether the continuation says what comes next: those that take no cycle, and blocks that
    /// are none, do not.
    pub open spec fn decides(self) -> bool {
        match self {
            ContinuationView::ResumeBasicBlock { batches, .. } => batches is Some,
            ContinuationView::Other { increments_clk } => increments_clk,
            _ => true,
        }
    }

    /// The batch to go on with exists, and the number of the operation can be written down.
    pub open spec fn in_range(self) -> bool {
        match self {
            ContinuationView::ResumeBasicBlock {
                batch_index,
                op_idx_in_batch,
                batches: Some(batches),
                ..
            } => {
                &&& batch_index < batches.len()
                &&& ops_before(batches, batch_index as nat) + op_idx_in_batch <= usize::MAX
            },
            _ => true,
        }
    }

    /// What comes next, where the continuation says so.
    pub open spec fn upcoming(self) -> UpcomingOp {
        match self {
            ContinuationView::StartNode(node) => UpcomingOp {
                op: None,
                node_id: Some(node),
                op_idx: None,
            },
            ContinuationView::FinishBasicBlock => UpcomingOp {
                op: Some(Operation { code: OP_END, imm: 0 }),
                node_id: None,
                op_idx: None,
            },
            ContinuationView::ResumeBasicBlock {
                node_id,
                batch_index,
                op_idx_in_batch,
                batches: Some(batches),
            } => UpcomingOp {
                op: if op_idx_in_batch < batches[batch_index as int].len() {
                    Some(batches[batch_index as int][op_idx_in_batch as int])
                } else {
                    None
                },
                node_id: Some(node_id),
                op_idx: Some((ops_before(batches, batch_index as nat) + op_idx_in_batch) as usize),
            },
            _ => UpcomingOp { op: None, node_id: None, op_idx: None },
        }
    }
}

/// What comes next: what the first continuation that decides says, if there is one.
pub open spec fn upcoming(continuations: Seq<ContinuationView>) -> UpcomingOp
    decreases continuations.len(),
{
    if continuations.len() == 0 {
        UpcomingOp { op: None, node_id: None, op_idx: None }
    } else if continuations[0].decides() {
        continuations[0].upcoming()
    } else {
        upcoming(continuations.skip(1))
    }
}

/// The continuation that says what comes next is in range.
pub open spec fn upcoming_in_range(continuations: Seq<ContinuationView>) -> bool
    decreases continuations.len(),
{
    if continuations.len() == 0 {
        true
    } else if continuations[0].decides() {
        continuations[0].in_range()
    } else {
        upcoming_in_range(continuations.skip(1))
    }
}

impl Continuation {
    /// Whether the continuation says what comes next.
    fn is_decisive(&self) -> (r: bool)
        ensures
            r == self@.decides(),
    {
        match self {
            Continuation::ResumeBasicBlock { batches, .. } => batches.is_some(),
            Continuation::Other { increments_clk } => *increments_clk,
            _ => true,
        }
    }

    /// What comes next; none where the batch to go on with does not exist, or the number of the
    /// operation cannot be written down.
    fn next_op(&self) -> (r: Option<UpcomingOp>)
        ensures
            match r {
                Some(op) => self@.in_range() && op == self@.upcoming(),
                None => !self@.in_range(),
            },
    {
        match self {
            Continuation::ResumeBasicBlock {
                node_id,
                batch_index,
                op_idx_in_batch,
                batches: Some(batches),
            } => {
                if *batch_index >= batches.len() {
                    return None;
                }
                let ghost views = batch_views(batches@);
                let mut before: usize = 0;
                let mut k: usize = 0;
                while k < *batch_index
                    invariant
                        k <= *batch_index < batches@.len(),
                        views == batch_views(batches@),
                        before == ops_before(views, k as nat),
                        self@.in_range() ==> ops_before(views, *batch_index as nat) <= usize::MAX,
                    decreases *batch_index - k,
                {
                    match before.checked_add(batches[k].len()) {
                        Some(n) => {
                            before = n;
                        },
                        None => {
                            proof {
                                ops_before_grows(views, (k + 1) as nat, *batch_index as nat);
                            }
                            return None;
                        },
                    }
                    k += 1;
                }
                let batch = &batches[*batch_index];
                let op = if *op_idx_in_batch < batch.len() {
                    Some(batch[*op_idx_in_batch])
                } else {
                    None
                };
                match before.checked_add(*op_idx_in_batch) {
                    Some(n) => Some(UpcomingOp { op, node_id: Some(*node_id), op_idx: Some(n) }),
                    None => None,
                }
            },
            Continuation::StartNode(node) => Some(
                UpcomingOp { op: None, node_id: Some(*node), op_idx: None },
            ),
            Continuation::FinishBasicBlock => Some(
                UpcomingOp {
                    op: Some(Operation { code: OP_END, imm: 0 }),
                    node_id: None,
                    op_idx: None,
                },
            ),
            _ => Some(UpcomingOp { op: None, node_id: None, op_idx: None }),
        }
    }
}

proof fn ops_before_grows(batches: Seq<Seq<Operation>>, a: nat, b: nat)
    requires
        a <= b,
    ensures
        ops_before(batches, a) <= ops_before(batches, b),
    decreases b,
{
    if a < b {
        ops_before_grows(batches, a, (b - 1) as nat);
    }
}

/// Finds out which operation comes next; none where the batch that it stands in does not exist.
pub fn upcoming_op(continuations: &Vec<Continuation>) -> (r: Option<UpcomingOp>)
    ensures
        match r {
            Some(op) => {
                &&& upcoming_in_range(continuation_views(continuations@))
                &&& op == upcoming(continuation_views(continuations@))
            },
            None => !upcoming_in_range(continuation_views(continuations@)),
        },
{
    let ghost views = continuation_views(continuations@);
    let mut i: usize = 0;
    proof {
        assert(views.skip(0) =~= views);
    }
    while i < continuations.len()
        invariant
            i <= continuations@.len(),
            views == continuation_views(continuations@),
            upcoming_in_range(views) == upcoming_in_range(views.skip(i as int)),
            upcoming(views) == upcoming(views.skip(i as int)),
        decreases continuations@.len() - i,
    {
        proof {
            assert(views.skip(i as int)[0] == continuations@[i as int]@);
            assert(views.skip(i as int).skip(1) =~= views.skip(i + 1));
        }
        if continuations[i].is_decisive() {
            return continuations[i].next_op();
        }
        i += 1;
    }
    Some(UpcomingOp { op: None, node_id: None, op_idx: None })
}

/// The operations in the first batches, by the operations that these batches hold one after the
/// other.
proof fn ops_before_are_those_of_the_batches(batches: Seq<Seq<Operation>>, n: nat)
    requires
        n <= batches.len(),
    ensures
        batches.take(n as int).flatten().len() == ops_before(batches, n),
    decreases n,
{
    if n > 0 {
        ops_before_are_those_of_the_batches(batches, (n - 1) as nat);
        batches.take(n - 1).lemma_flatten_push(batches[n - 1]);
        assert(batches.take(n as int) =~= batches.take(n - 1).push(batches[n - 1]));
    } else {
        assert(batches.take(0) =~= Seq::<Seq<Operation>>::empty());
    }
}

/// The number of the operation that a block goes on with is its position among all operations of
/// the block, whatever batch it stands in: it is found there by its number. At the end of a batch
/// there is no operation, but its place has a number all the same.
pub proof fn an_operation_is_found_by_its_number(
    node_id: u32,
    batch_index: usize,
    op_idx_in_batch: usize,
    batches: Seq<Seq<Operation>>,
)
    requires
        batch_index < batches.len(),
        batches.take(batch_index as int).flatten().len() + op_idx_in_batch <= usize::MAX,
    ensures
        ({
            let block = ContinuationView::ResumeBasicBlock {
                node_id,
                batch_index,
                op_idx_in_batch,
                batches: Some(batches),
            };
            let next = block.upcoming();
            let inside = op_idx_in_batch < batches[batch_index as int].len();
            &&& block.decides()
            &&& block.in_range()
            &&& next.node_id == Some(node_id)
            &&& next.op_idx matches Some(number)
            &&& number == batches.take(batch_index as int).flatten().len() + op_idx_in_batch
            &&& inside ==> number < batches.flatten().len() && next.op == Some(
                batches.flatten()[number as int],
            )
            &&& !inside ==> next.op is None
        }),
{
    ops_before_are_those_of_the_batches(batches, batch_index as nat);
    let front = batches.take(batch_index as int);
    let here = batches[batch_index as int];
    let back = batches.skip(batch_index + 1);
    front.lemma_flatten_push(here);
    vstd::seq_lib::lemma_flatten_concat(front.push(here), back);
    assert(batches =~= front.push(here) + back);
}

/// Along a block the numbers of the operations go up, from batch to batch and within each of them:
/// no two operations of a block have the same number.
pub proof fn numbers_of_operations_go_up(
    node_id: u32,
    first: (usize, usize),
    second: (usize, usize),
    batches: Seq<Seq<Operation>>,
)
    requires
        first.0 < batches.len(),
        first.1 < batches[first.0 as int].len(),
        second.0 < batches.len(),
        second.1 < batches[second.0 as int].len(),
        first.0 < second.0 || (first.0 == second.0 && first.1 < second.1),
        batches.flatten().len() <= usize::MAX,
    ensures
        ({
            let at = |place: (usize, usize)| ContinuationView::ResumeBasicBlock {
                node_id,
                batch_index: place.0,
                op_idx_in_batch: place.1,
                batches: Some(batches),
            };
            &&& at(first).upcoming().op_idx matches Some(a)
            &&& at(second).upcoming().op_idx matches Some(b)
            &&& a < b
        }),
{
    let n = batches.len();
    assert(batches.take(n as int) =~= batches);
    ops_before_are_those_of_the_batches(batches, n);
    ops_before_grows(batches, (first.0 + 1) as nat, n);
    ops_before_grows(batches, (second.0 + 1) as nat, n);
    if first.0 < second.0 {
        ops_before_grows(batches, (first.0 + 1) as nat, second.0 as nat);
    }
}

/// A batch that does not exist has no operations, and no number is given to them.
pub proof fn a_batch_that_is_not_there_is_refused(
    node_id: u32,
    batch_index: usize,
    op_idx_in_batch: usize,
    batches: Seq<Seq<Operation>>,
)
    requires
        batch_index >= batches.len() || batches.take(batch_index as int).flatten().len()
            + op_idx_in_batch > usize::MAX,
    ensures
        !(ContinuationView::ResumeBasicBlock {
            node_id,
            batch_index,
            op_idx_in_batch,
            batches: Some(batches),
        }).in_range(),
{
    if batch_index < batches.len() {
        ops_before_are_those_of_the_batches(batches, batch_index as nat);
    }
}

/// What there is to do besides going on with a block: a node that starts is known by its number
/// alone, a block that ends runs the operation that ends it, and nothing is known of the rest.
pub proof fn other_work_has_no_number(node: u32)
    ensures
        ContinuationView::StartNode(node).upcoming() == (UpcomingOp {
            op: None,
            node_id: Some(node),
            op_idx: None,
        }),
        ContinuationView::FinishBasicBlock.upcoming().op matches Some(op) && op.code == OP_END,
        ContinuationView::FinishBasicBlock.upcoming().node_id is None,
        (ContinuationView::Other { increments_clk: true }).upcoming() == (UpcomingOp {
            op: None,
            node_id: None,
            op_idx: None,
        }),
        ContinuationView::StartNode(node).decides(),
        ContinuationView::StartNode(node).in_range(),
        ContinuationView::FinishBasicBlock.decides(),
        ContinuationView::FinishBasicBlock.in_range(),
        (ContinuationView::Other { increments_clk: true }).decides(),
        (ContinuationView::Other { increments_clk: true }).in_range(),
{
}

/// Work that takes no cycle, and blocks that are none, make no difference to what comes next,
/// however many of them stand in front; and what stands behind the work that comes next makes none.
pub proof fn the_first_work_with_a_cycle_counts(
    idle: Seq<ContinuationView>,
    next: ContinuationView,
    later: Seq<ContinuationView>,
)
    requires
        forall|i: int|
            0 <= i < idle.len() ==> match #[trigger] idle[i] {
                ContinuationView::Other { increments_clk } => !increments_clk,
                ContinuationView::ResumeBasicBlock { batches, .. } => batches is None,
                _ => false,
            },
        next.decides(),
    ensures
        upcoming(idle + seq![next] + later) == next.upcoming(),
        upcoming_in_range(idle + seq![next] + later) == next.in_range(),
        upcoming(idle) == (UpcomingOp { op: None, node_id: None, op_idx: None }),
        upcoming_in_range(idle),
    decreases idle.len(),
{
    let all = idle + seq![next] + later;
    if idle.len() > 0 {
        assert(all[0] == idle[0]);
        assert(all.skip(1) =~= idle.skip(1) + seq![next] + later);
        assert forall|i: int| 0 <= i < idle.skip(1).len() implies match #[trigger] idle.skip(1)[i] {
            ContinuationView::Other { increments_clk } => !increments_clk,
            ContinuationView::ResumeBasicBlock { batches, .. } => batches is None,
            _ => false,
        } by {
            assert(idle.skip(1)[i] == idle[i + 1]);
        }
        the_first_work_with_a_cycle_counts(idle.skip(1), next, later);
    } else {
        assert(all[0] == next);
    }
}

// ---------------------------------------------------------------------------------------------
// What comes next in the virtual machine
// ---------------------------------------------------------------------------------------------

/// What the virtual machine needs to go on with a program.
#[verifier::external_type_specification]
#[verifier::external_body]
pub struct ExResumeContext(miden_processor::ResumeContext);

/// What the virtual machine has left to do, by the numbers of nodes and operations.
#[derive(Debug, Clone, Copy, PartialEq, Eq, Structural)]
pub enum PendingWork {
    StartNode(u32),
    FinishBasicBlock,
    ResumeBasicBlock { node_id: u32, batch_index: usize, op_idx_in_batch: usize },
    Other { increments_clk: bool },
}

/// What the virtual machine has left to do up to the end of the next cycle, in order.
pub uninterp spec fn pending(ctx: miden_processor::ResumeContext) -> Seq<PendingWork>;

/// What the virtual machine has left to do up to the end of the next cycle, in order.
///
/// Trusted: `ContinuationStack::iter_continuations_for_next_clock` of `miden-processor`, and
/// `Continuation::increments_clk`. The result is named, not described.
#[verifier::external_body]
fn pending_work(ctx: &ResumeContext) -> (r: Vec<PendingWork>)
    ensures
        r@ == pending(*ctx),
{
    let stack = ctx.continuation_stack().iter_continuations_for_next_clock();
    stack.map(|c| match c {
        miden_processor::Continuation::StartNode(id) => PendingWork::StartNode((*id).into()),
        miden_processor::Continuation::FinishBasicBlock(_) => PendingWork::FinishBasicBlock,
        miden_processor::Continuation::ResumeBasicBlock { node_id, batch_index, op_idx_in_batch } =>
            PendingWork::ResumeBasicBlock {
                node_id: (*node_id).into(),
                batch_index: *batch_index,
                op_idx_in_batch: *op_idx_in_batch,
            },
        other => PendingWork::Other { increments_clk: other.increments_clk() },
    }).collect()
}

/// The operations of a node, batch by batch; none where the node is no block of straight-line code.
pub uninterp spec fn block_operations(ctx: miden_processor::ResumeContext, node_id: u32) -> Option<
    Seq<Seq<Operation>>,
>;

/// The operations of a node, batch by batch.
///
/// Trusted: `BasicBlockNode::op_batches` and `OpBatch::ops` of `miden-core`, on the node of the
/// forest that is being run; an operation is taken apart by `Operation::to_bytes`, which writes its
/// code and then the value that it carries. The result is named, not described.
#[verifier::external_body]
fn block_of(ctx: &ResumeContext, node_id: u32) -> (r: Option<Vec<Vec<Operation>>>)
    ensures
        match r {
            Some(batches) => block_operations(*ctx, node_id) == Some(batch_views(batches@)),
            None => block_operations(*ctx, node_id) is None,
        },
{
    let forest = ctx.current_forest();
    let id = miden_core::mast::MastNodeId::from_u32_safe(node_id, forest).ok()?;
    let miden_core::mast::MastNode::Block(block) = &forest[id] else { return None };
    let batches = block.op_batches().iter().map(|batch| batch.ops().iter().map(|op| {
        let mut bytes = op.to_bytes();
        bytes.resize(9, 0);
        let imm = [bytes[1], bytes[2], bytes[3], bytes[4], bytes[5], bytes[6], bytes[7], bytes[8]];
        Operation { code: bytes[0], imm: u64::from_le_bytes(imm) }
    }).collect());
    Some(batches.collect())
}

/// The instruction that an operation of a node stems from; the first instruction of the node where
/// no operation is given.
pub uninterp spec fn instruction_at(
    ctx: miden_processor::ResumeContext,
    node_id: u32,
    op_idx: Option<usize>,
) -> Option<AssemblyOpView>;

/// The instruction that an operation of a node stems from.
///
/// Trusted: `MastForest::get_assembly_op` of `miden-core`, on the forest that is being run. The
/// result is named, not described.
#[verifier::external_body]
fn instruction(ctx: &ResumeContext, node_id: u32, op_idx: Option<usize>) -> (r: Option<AssemblyOp>)
    ensures
        crate::debug::op::asmop_view(r) == instruction_at(*ctx, node_id, op_idx),
{
    let forest = ctx.current_forest();
    let id = miden_core::mast::MastNodeId::from_u32_safe(node_id, forest).ok()?;
    let found = forest.get_assembly_op(id, op_idx)?;
    let location = found.location().map(|l| Location {
        uri: l.uri().to_string(),
        start: l.start.to_u32(),
        end: l.end.to_u32(),
    });
    let (context_name, op) = (found.context_name().to_string(), found.op().to_string());
    Some(AssemblyOp { location, context_name, num_cycles: found.num_cycles(), op })
}

/// Work that is left to do, with the operations of the blocks that go on.
pub open spec fn continuations(ctx: miden_processor::ResumeContext) -> Seq<ContinuationView> {
    pending(ctx).map_values(
        |work: PendingWork|
            match work {
                PendingWork::StartNode(node) => ContinuationView::StartNode(node),
                PendingWork::FinishBasicBlock => ContinuationView::FinishBasicBlock,
                PendingWork::ResumeBasicBlock { node_id, batch_index, op_idx_in_batch } => {
                    ContinuationView::ResumeBasicBlock {
                        node_id,
                        batch_index,
                        op_idx_in_batch,
                        batches: block_operations(ctx, node_id),
                    }
                },
                PendingWork::Other { increments_clk } => ContinuationView::Other {
                    increments_clk,
                },
            },
    )
}

/// Finds out which operation the virtual machine runs next; none where the batch that it stands in
/// does not exist.
pub fn extract_current_op(ctx: &ResumeContext) -> (r: Option<UpcomingOp>)
    ensures
        match r {
            Some(op) => {
                &&& upcoming_in_range(continuations(*ctx))
                &&& op == upcoming(continuations(*ctx))
            },
            None => !upcoming_in_range(continuations(*ctx)),
        },
{
    let work = pending_work(ctx);
    let mut list: Vec<Continuation> = Vec::new();
    let mut i: usize = 0;
    while i < work.len()
        invariant
            i <= work@.len(),
            work@ == pending(*ctx),
            list@.len() == i,
            forall|k: int| 0 <= k < i ==> (#[trigger] list@[k])@ == continuations(*ctx)[k],
        decreases work@.len() - i,
    {
        let next = match work[i] {
            PendingWork::StartNode(node) => Continuation::StartNode(node),
            PendingWork::FinishBasicBlock => Continuation::FinishBasicBlock,
            PendingWork::ResumeBasicBlock { node_id, batch_index, op_idx_in_batch } => {
                Continuation::ResumeBasicBlock {
                    node_id,
                    batch_index,
                    op_idx_in_batch,
                    batches: block_of(ctx, node_id),
                }
            },
            PendingWork::Other { increments_clk } => Continuation::Other { increments_clk },
        };
        list.push(next);
        i += 1;
    }
    proof {
        assert(continuation_views(list@) =~= continuations(*ctx));
    }
    upcoming_op(&list)
}

/// The operation that comes next, and the instruction that it stems from.
#[derive(Debug)]
pub struct NextStep {
    pub op: Option<Operation>,
    pub asmop: Option<AssemblyOp>,
}

/// The instruction that comes next.
pub open spec fn upcoming_asmop(ctx: miden_processor::ResumeContext) -> Option<AssemblyOpView> {
    match upcoming(continuations(ctx)).node_id {
        Some(node) => instruction_at(ctx, node, upcoming(continuations(ctx)).op_idx),
        None => None,
    }
}

/// Finds out what the virtual machine does next; none where the batch that the operation stands in
/// does not exist.
pub fn look_ahead(ctx: &ResumeContext) -> (r: Option<NextStep>)
    ensures
        match r {
            Some(next) => {
                &&& upcoming_in_range(continuations(*ctx))
                &&& next.op == upcoming(continuations(*ctx)).op
                &&& crate::debug::op::asmop_view(next.asmop) == upcoming_asmop(*ctx)
            },
            None => !upcoming_in_range(continuations(*ctx)),
        },
{
    match extract_current_op(ctx) {
        Some(next) => {
            let asmop = match next.node_id {
                Some(node) => instruction(ctx, node, next.op_idx),
                None => None,
            };
            Some(NextStep { op: next.op, asmop })
        },
        None => None,
    }
}

/// Where the virtual machine goes on with a block, the instruction that comes next is the one that
/// the block has for the operation at that position among all of its operations.
pub proof fn the_instruction_is_that_of_the_operation(
    ctx: miden_processor::ResumeContext,
    node_id: u32,
    batch_index: usize,
    op_idx_in_batch: usize,
    batches: Seq<Seq<Operation>>,
)
    requires
        pending(ctx).len() > 0,
        pending(ctx)[0] == (PendingWork::ResumeBasicBlock { node_id, batch_index, op_idx_in_batch }),
        block_operations(ctx, node_id) == Some(batches),
        batch_index < batches.len(),
        op_idx_in_batch < batches[batch_index as int].len(),
        batches.flatten().len() <= usize::MAX,
    ensures
        upcoming_in_range(continuations(ctx)),
        ({
            let number = batches.take(batch_index as int).flatten().len() + op_idx_in_batch;
            &&& number < batches.flatten().len()
            &&& upcoming(continuations(ctx)).op == Some(batches.flatten()[number])
            &&& upcoming_asmop(ctx) == instruction_at(ctx, node_id, Some(number as usize))
        }),
{
    let n = batches.len();
    assert(batches.take(n as int) =~= batches);
    ops_before_are_those_of_the_batches(batches, n);
    ops_before_are_those_of_the_batches(batches, batch_index as nat);
    ops_before_grows(batches, (batch_index + 1) as nat, n);
    an_operation_is_found_by_its_number(node_id, batch_index, op_idx_in_batch, batches);
}

/// Where a node starts, the instruction that comes next is the first one of the node; where a block
/// ends, there is none.
pub proof fn a_node_starts_with_its_first_instruction(ctx: miden_processor::ResumeContext)
    requires
        pending(ctx).len() > 0,
    ensures
        pending(ctx)[0] matches PendingWork::StartNode(node) ==> {
            &&& upcoming(continuations(ctx)).op is None
            &&& upcoming_asmop(ctx) == instruction_at(ctx, node, None)
        },
        pending(ctx)[0] is FinishBasicBlock ==> {
            &&& upcoming(continuations(ctx)).op matches Some(op) && op.code == OP_END
            &&& upcoming_asmop(ctx) is None
        },
{
}

// ---------------------------------------------------------------------------------------------
// One cycle at a time
// ---------------------------------------------------------------------------------------------

/// How many of the operations run last are kept.
pub const RECENT_SIZE: usize = 5;

/// Why a program failed.
#[derive(Debug)]
pub struct StepError {
    pub message: String,
}

impl Clone for StepError {
    fn clone(&self) -> (r: Self)
        ensures
            r == *self,
    {
        StepError { message: self.message.clone() }
    }
}

/// What came of a cycle.
pub enum StepOutcome {
    /// The program goes on.
    Running(ResumeContext),
    /// The program has come to its end.
    Completed,
    /// The program failed.
    Failed(StepError),
}

/// A program that is run one cycle at a time, with all there is to know about its state.
pub struct DebugExecutor {
    /// The processor that runs the program.
    pub processor: miden_processor::FastProcessor,
    /// What is needed to go on with the program; none once it has come to its end.
    pub resume_ctx: Option<ResumeContext>,
    /// The operand stack, the top first.
    pub current_stack: Vec<u64>,
    /// The operation run last.
    pub current_op: Option<Operation>,
    /// The instruction that the operation run last stems from.
    pub current_asmop: Option<AssemblyOp>,
    /// What the program left on the operand stack.
    pub stack_outputs: StackOutputs,
    /// The execution contexts seen so far.
    pub contexts: BTreeSet<u32>,
    /// The context the program began in.
    pub root_context: u32,
    /// The context the program is in.
    pub current_context: u32,
    /// The call stack.
    pub callstack: CallStack,
    /// The operations run last, the latest at the end.
    pub recent: VecDeque<Operation>,
    /// How many cycles the program has run.
    pub cycle: usize,
    /// Whether the program has come to its end, or has failed.
    pub stopped: bool,
    /// Why the program failed.
    pub failure: Option<StepError>,
}

/// The state of a [`DebugExecutor`]: all that it shows, and all that bears on what it does next.
pub struct ExecutorState {
    pub processor: miden_processor::FastProcessor,
    pub resume_ctx: Option<ResumeContext>,
    pub current_stack: Seq<u64>,
    pub current_op: Option<Operation>,
    pub current_asmop: Option<AssemblyOpView>,
    pub stack_outputs: Seq<u64>,
    pub contexts: Set<u32>,
    pub root_context: u32,
    pub current_context: u32,
    pub callstack: StackView,
    pub recent: Seq<Operation>,
    pub cycle: usize,
    pub stopped: bool,
    pub failure: Option<StepError>,
}

impl View for DebugExecutor {
    type V = ExecutorState;

    open spec fn view(&self) -> ExecutorState {
        ExecutorState {
            processor: self.processor,
            resume_ctx: self.resume_ctx,
            current_stack: self.current_stack@,
            current_op: self.current_op,
            current_asmop: crate::debug::op::asmop_view(self.current_asmop),
            stack_outputs: self.stack_outputs.elements@,
            contexts: self.contexts@,
            root_context: self.root_context,
            current_context: self.current_context,
            callstack: self.callstack@,
            recent: self.recent@,
            cycle: self.cycle,
            stopped: self.stopped,
            failure: self.failure,
        }
    }
}

impl ExecutorState {
    /// The state of a program that has not run, given the processor that is ready to run it, and
    /// what there is to do.
    pub open spec fn ready(
        processor: miden_processor::FastProcessor,
        resume_ctx: ResumeContext,
    ) -> ExecutorState {
        ExecutorState {
            processor,
            resume_ctx: Some(resume_ctx),
            current_stack: Seq::empty(),
            current_op: None,
            current_asmop: None,
            stack_outputs: crate::exec::trace::top_of_stack(Seq::empty()),
            contexts: Set::empty(),
            root_context: 0,
            current_context: 0,
            callstack: StackView {
                trace_events: Map::empty(),
                contexts: Set::empty(),
                frames: Seq::empty(),
                block_stack: Seq::empty(),
            },
            recent: Seq::empty(),
            cycle: 0,
            stopped: false,
            failure: None,
        }
    }

    /// The state after a cycle in which the processor ran `op`.
    pub open spec fn after(
        self,
        op: Option<Operation>,
        asmop: Option<AssemblyOpView>,
        outcome: StepOutcome,
    ) -> ExecutorState {
        let stack = crate::exec::trace::stack_of(self.processor);
        match outcome {
            StepOutcome::Running(resume_ctx) => {
                let ctx = crate::exec::trace::context_of(self.processor);
                ExecutorState {
                    resume_ctx: Some(resume_ctx),
                    current_stack: stack,
                    current_op: op,
                    current_asmop: asmop,
                    contexts: if ctx == self.current_context {
                        self.contexts
                    } else {
                        self.contexts.insert(ctx)
                    },
                    current_context: ctx,
                    callstack: self.callstack.after(op, asmop, (self.cycle + 1) as u32),
                    recent: recent_after(self.recent, op),
                    cycle: (self.cycle + 1) as usize,
                    ..self
                }
            },
            StepOutcome::Completed => ExecutorState {
                current_stack: stack,
                stack_outputs: crate::exec::trace::top_of_stack(stack),
                stopped: true,
                ..self
            },
            StepOutcome::Failed(error) => ExecutorState {
                stopped: true,
                failure: Some(error),
                ..self
            },
        }
    }
}

/// Programs that are in the same state step alike: where the virtual machine does the same in a
/// cycle, they are in the same state behind it.
pub proof fn programs_in_the_same_state_step_alike(
    before: (DebugExecutor, DebugExecutor),
    after: (DebugExecutor, DebugExecutor),
    op: Option<Operation>,
    asmop: Option<AssemblyOpView>,
    outcome: StepOutcome,
)
    requires
        before.0@ == before.1@,
        after.0@ == before.0@.after(op, asmop, outcome),
        after.1@ == before.1@.after(op, asmop, outcome),
    ensures
        after.0@ == after.1@,
{
}

/// The operations run last, after another one.
pub open spec fn recent_after(recent: Seq<Operation>, op: Option<Operation>) -> Seq<Operation> {
    match op {
        None => recent,
        Some(op) => if recent.len() == RECENT_SIZE {
            recent.skip(1).push(op)
        } else {
            recent.push(op)
        },
    }
}

/// The operations that are kept, once all of these were run.
pub open spec fn recent_of(ops: Seq<Operation>) -> Seq<Operation>
    decreases ops.len(),
{
    if ops.len() == 0 {
        Seq::empty()
    } else {
        recent_after(recent_of(ops.drop_last()), Some(ops.last()))
    }
}

/// The operations that are kept are the last ones, in the order in which they were run.
pub proof fn the_last_operations_are_kept(ops: Seq<Operation>)
    ensures
        recent_of(ops) == if ops.len() > RECENT_SIZE {
            ops.skip(ops.len() - RECENT_SIZE)
        } else {
            ops
        },
    decreases ops.len(),
{
    if ops.len() > 0 {
        the_last_operations_are_kept(ops.drop_last());
        assert(ops.drop_last().push(ops.last()) =~= ops);
        if ops.len() > RECENT_SIZE {
            assert(recent_of(ops) =~= ops.skip(ops.len() - RECENT_SIZE));
        }
    } else {
        assert(ops =~= Seq::empty());
    }
}

/// Of the operations that were run the last five are kept, or all where there are fewer.
pub proof fn five_operations_are_kept(ops: Seq<Operation>, before: Seq<Operation>)
    requires
        ops.len() == 5,
    ensures
        recent_of(before + ops) == ops,
        recent_of(ops) == ops,
        forall|n: int| 0 <= n <= 5 ==> recent_of(#[trigger] ops.take(n)) == ops.take(n),
{
    the_last_operations_are_kept(before + ops);
    the_last_operations_are_kept(ops);
    assert((before + ops).skip((before + ops).len() - RECENT_SIZE) =~= ops);
    assert forall|n: int| 0 <= n <= 5 implies recent_of(#[trigger] ops.take(n)) == ops.take(n) by {
        the_last_operations_are_kept(ops.take(n));
    }
}

/// A cycle in which the program goes on is counted, and shows the operation that was run, its
/// instruction, and the stack and the context of the processor behind it.
pub proof fn a_cycle_shows_what_was_run(
    before: ExecutorState,
    op: Option<Operation>,
    asmop: Option<AssemblyOpView>,
    ctx: ResumeContext,
)
    requires
        before.cycle < usize::MAX,
    ensures
        ({
            let after = before.after(op, asmop, StepOutcome::Running(ctx));
            &&& after.cycle == before.cycle + 1
            &&& after.current_op == op
            &&& after.current_asmop == asmop
            &&& after.resume_ctx == Some(ctx)
            &&& after.current_stack == crate::exec::trace::stack_of(before.processor)
            &&& after.current_context == crate::exec::trace::context_of(before.processor)
            &&& before.contexts.subset_of(after.contexts)
            &&& after.current_context != before.current_context ==> after.contexts.contains(
                after.current_context,
            )
            &&& op matches Some(op) ==> after.recent.len() > 0 && after.recent.last() == op
            &&& op is None ==> after.recent == before.recent
            &&& after.stopped == before.stopped
            &&& after.failure == before.failure
            &&& after.stack_outputs == before.stack_outputs
            &&& after.root_context == before.root_context
            &&& after.processor == before.processor
        }),
{
}

/// A program that comes to its end stops, and leaves what is on top of the operand stack; one that
/// fails stops with its failure. Neither counts as a cycle, nor changes anything else.
pub proof fn a_program_that_stops_stays_where_it_is(
    before: ExecutorState,
    op: Option<Operation>,
    asmop: Option<AssemblyOpView>,
    outcome: StepOutcome,
)
    requires
        !(outcome is Running),
    ensures
        ({
            let after = before.after(op, asmop, outcome);
            &&& after.stopped
            &&& after.cycle == before.cycle
            &&& after.recent == before.recent
            &&& after.callstack == before.callstack
            &&& after.current_op == before.current_op
            &&& after.current_asmop == before.current_asmop
            &&& after.contexts == before.contexts
            &&& after.current_context == before.current_context
            &&& outcome is Completed ==> {
                let stack = crate::exec::trace::stack_of(before.processor);
                &&& after.failure == before.failure
                &&& after.current_stack == stack
                &&& after.stack_outputs == crate::exec::trace::top_of_stack(stack)
            }
            &&& outcome matches StepOutcome::Failed(error) ==> {
                &&& after.failure == Some(error)
                &&& after.current_stack == before.current_stack
                &&& after.stack_outputs == before.stack_outputs
            }
        }),
{
}

impl DebugExecutor {
    /// The call stack and the outputs are well-formed, and only the last few operations are kept.
    pub open spec fn wf(&self) -> bool {
        &&& self.callstack@.wf()
        &&& self.stack_outputs.wf()
        &&& self.recent@.len() <= RECENT_SIZE
    }

    /// What a program that has stopped gives as the result of every further step: its failure, or
    /// nothing.
    pub open spec fn last_result(&self) -> Result<(), StepError> {
        match self.failure {
            Some(e) => Err(e),
            None => Ok(()),
        }
    }

    /// Begins a cycle: hands out what is needed to go on, which is none where the program has come
    /// to its end. A program that has stopped gives the same result as before, and stays as it is.
    pub fn begin_step(&mut self) -> (r: Result<Option<ResumeContext>, StepError>)
        requires
            old(self).wf(),
        ensures
            final(self).wf(),
            old(self).stopped ==> {
                &&& *final(self) == *old(self)
                &&& match r {
                    Ok(ctx) => ctx is None && old(self).last_result() is Ok,
                    Err(e) => old(self).last_result() == Err::<(), StepError>(e),
                }
            },
            !old(self).stopped ==> {
                &&& r matches Ok(ctx) && ctx == old(self).resume_ctx
                &&& *final(self) == (DebugExecutor {
                    resume_ctx: None,
                    stopped: old(self).resume_ctx is None,
                    ..*old(self)
                })
            },
    {
        if self.stopped {
            return match &self.failure {
                Some(e) => Err(e.clone()),
                None => Ok(None),
            };
        }
        match self.resume_ctx.take() {
            Some(ctx) => Ok(Some(ctx)),
            None => {
                self.stopped = true;
                Ok(None)
            },
        }
    }

    /// Ends a cycle in which the processor ran `op`. Returns the call frame that was left in it.
    pub fn step(
        &mut self,
        op: Option<Operation>,
        asmop: Option<AssemblyOp>,
        outcome: StepOutcome,
    ) -> (r: Result<Option<CallFrame>, StepError>)
        requires
            old(self).wf(),
            old(self).cycle < usize::MAX,
        ensures
            final(self).wf(),
            final(self)@ == old(self)@.after(op, crate::debug::op::asmop_view(asmop), outcome),
            final(self).processor == old(self).processor,
            final(self).root_context == old(self).root_context,
            match outcome {
                StepOutcome::Running(resume_ctx) => {
                    let ctx = crate::exec::trace::context_of(old(self).processor);
                    let clk = (old(self).cycle + 1) as u32;
                    &&& final(self).resume_ctx == Some(resume_ctx)
                    &&& final(self).cycle == old(self).cycle + 1
                    &&& final(self).current_stack@ == crate::exec::trace::stack_of(
                        old(self).processor,
                    )
                    &&& final(self).current_context == ctx
                    &&& final(self).contexts@ == if ctx == old(self).current_context {
                        old(self).contexts@
                    } else {
                        old(self).contexts@.insert(ctx)
                    }
                    &&& final(self).current_op == op
                    &&& final(self).current_asmop == asmop
                    &&& final(self).recent@ == recent_after(old(self).recent@, op)
                    &&& final(self).callstack@ == old(self).callstack@.after(
                        op,
                        crate::debug::op::asmop_view(asmop),
                        clk,
                    )
                    &&& final(self).stack_outputs == old(self).stack_outputs
                    &&& final(self).stopped == old(self).stopped
                    &&& final(self).failure == old(self).failure
                    &&& match r {
                        Ok(Some(frame)) => op is Some && old(self).callstack@.ended_by(
                            old(self).callstack@.event(clk),
                        ) == Some(frame@),
                        Ok(None) => op is None || old(self).callstack@.ended_by(
                            old(self).callstack@.event(clk),
                        ) is None,
                        Err(_) => false,
                    }
                },
                StepOutcome::Completed => {
                    &&& r matches Ok(frame) && frame is None
                    &&& final(self).current_stack@ == crate::exec::trace::stack_of(
                        old(self).processor,
                    )
                    &&& final(self).stack_outputs.elements@ == crate::exec::trace::top_of_stack(
                        final(self).current_stack@,
                    )
                    &&& *final(self) == (DebugExecutor {
                        stopped: true,
                        current_stack: final(self).current_stack,
                        stack_outputs: final(self).stack_outputs,
                        ..*old(self)
                    })
                },
                StepOutcome::Failed(error) => {
                    &&& r matches Err(e) && e == error
                    &&& *final(self) == (DebugExecutor {
                        stopped: true,
                        failure: Some(error),
                        ..*old(self)
                    })
                },
            },
    {
        broadcast use vstd::std_specs::btree::group_btree_axioms;

        match outcome {
            StepOutcome::Running(resume_ctx) => {
                self.resume_ctx = Some(resume_ctx);
                self.cycle = self.cycle + 1;
                let ctx: u32 = crate::exec::trace::current_context(&self.processor);
                self.current_stack = crate::exec::trace::stack_state(&self.processor);
                if self.current_context != ctx {
                    self.contexts.insert(ctx);
                    self.current_context = ctx;
                }
                self.current_op = op;
                self.current_asmop = asmop;
                if let Some(op) = op {
                    if self.recent.len() == RECENT_SIZE {
                        self.recent.pop_front();
                    }
                    self.recent.push_back(op);
                }
                proof {
                    assert(self.recent@ =~= recent_after(old(self).recent@, op));
                }
                let clk: u32 = #[verifier::truncate]
                (self.cycle as u32);
                let info = StepInfo {
                    op,
                    asmop: self.current_asmop.as_ref(),
                    clk,
                    ctx: self.current_context,
                };
                let left = self.callstack.next(&info);
                Ok(left)
            },
            StepOutcome::Completed => {
                self.stopped = true;
                self.current_stack = crate::exec::trace::stack_state(&self.processor);
                self.stack_outputs = StackOutputs::top_of(&self.current_stack);
                Ok(None)
            },
            StepOutcome::Failed(error) => {
                self.stopped = true;
                self.failure = Some(error.clone());
                Err(error)
            },
        }
    }

    /// The final state of the program, as of the current cycle.
    pub fn into_execution_trace(self) -> (r: ExecutionTrace)
        requires
            self.wf(),
        ensures
            r.wf(),
            r == (ExecutionTrace {
                root_context: self.root_context,
                last_cycle: self.cycle as u32,
                processor: self.processor,
                outputs: self.stack_outputs,
            }),
    {
        let last_cycle: u32 = #[verifier::truncate]
        (self.cycle as u32);
        ExecutionTrace {
            root_context: self.root_context,
            last_cycle,
            processor: self.processor,
            outputs: self.stack_outputs,
        }
    }
}

} // verus!
