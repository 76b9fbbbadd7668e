//! What a debugger's host does for the program it runs: it supplies code, plays back recorded
//! events, and passes on what the program reports.
use std::collections::{BTreeMap, VecDeque};
use std::sync::Arc;

use miden_core::mast::MastForest;
use miden_processor::{MastForestStore, MemMastForestStore};
use vstd::prelude::*;

use crate::debug::op::TraceEvent;
use crate::exec::advice::{AdviceMutation, Record, Word};

verus! {

/// What a program reports when a call frame starts.
pub const TRACE_FRAME_START: u32 = 240;

/// What a program reports when a call frame ends.
pub const TRACE_FRAME_END: u32 = 252;

impl TraceEvent {
    /// The event that a number stands for.
    pub open spec fn of_id(id: u32) -> TraceEvent {
        if id == TRACE_FRAME_START {
            TraceEvent::FrameStart
        } else if id == TRACE_FRAME_END {
            TraceEvent::FrameEnd
        } else {
            TraceEvent::Unknown(id)
        }
    }

    /// The number under which the handlers of an event are kept.
    pub open spec fn key(self) -> u32 {
        match self {
            TraceEvent::FrameStart => TRACE_FRAME_START,
            TraceEvent::FrameEnd => TRACE_FRAME_END,
            TraceEvent::AssertionFailed(None) => u32::MAX,
            TraceEvent::AssertionFailed(Some(code)) => code,
            TraceEvent::Unknown(id) => id,
        }
    }

    /// The event that a number stands for.
    pub fn from_id(id: u32) -> (r: TraceEvent)
        ensures
            r == TraceEvent::of_id(id),
    {
        if id == TRACE_FRAME_START {
            TraceEvent::FrameStart
        } else if id == TRACE_FRAME_END {
            TraceEvent::FrameEnd
        } else {
            TraceEvent::Unknown(id)
        }
    }

    /// The number under which the handlers of an event are kept.
    pub fn handler_key(&self) -> (r: u32)
        ensures
            r == self.key(),
    {
        match self {
            TraceEvent::FrameStart => TRACE_FRAME_START,
            TraceEvent::FrameEnd => TRACE_FRAME_END,
            TraceEvent::AssertionFailed(None) => u32::MAX,
            TraceEvent::AssertionFailed(Some(code)) => *code,
            TraceEvent::Unknown(id) => *id,
        }
    }
}

/// The handlers of the frame events are found under the numbers that programs report.
pub proof fn frame_handlers_are_found(event: TraceEvent)
    requires
        event == TraceEvent::FrameStart || event == TraceEvent::FrameEnd,
    ensures
        TraceEvent::of_id(event.key()) == event,
{
}

// ---------------------------------------------------------------------------------------------
// Code
// ---------------------------------------------------------------------------------------------

/// The code that programs can call.
#[verifier::external_type_specification]
#[verifier::external_body]
pub struct ExMemMastForestStore(miden_processor::MemMastForestStore);

/// The forest, by its bytes, that holds the procedure with a hash, for each hash that is known.
pub uninterp spec fn stored(store: miden_processor::MemMastForestStore) -> Map<Word, Seq<u8>>;

/// The hashes of the procedures that a forest holds itself. The forest is given by its bytes.
pub uninterp spec fn local_procedures(forest: Seq<u8>) -> Set<Word>;

/// What is known once a forest with these procedures is added: they take the place of those with
/// the same hash.
pub open spec fn with_procedures(
    code: Map<Word, Seq<u8>>,
    forest: Seq<u8>,
    procedures: Set<Word>,
) -> Map<Word, Seq<u8>> {
    Map::new(
        |digest: Word| code.dom().contains(digest) || procedures.contains(digest),
        |digest: Word|
            if procedures.contains(digest) {
                forest
            } else {
                code[digest]
            },
    )
}

/// What is known once a forest is added.
pub open spec fn with_forest(code: Map<Word, Seq<u8>>, forest: Seq<u8>) -> Map<Word, Seq<u8>> {
    with_procedures(code, forest, local_procedures(forest))
}

/// What is known once these forests are added, one after the other.
pub open spec fn code_of(forests: Seq<Arc<MastForest>>) -> Map<Word, Seq<u8>>
    decreases forests.len(),
{
    if forests.len() == 0 {
        Map::empty()
    } else {
        with_forest(
            code_of(forests.drop_last()),
            crate::exec::snapshot::forest_bytes(*forests.last()),
        )
    }
}

/// A procedure is found in the forest that was added last of those that hold it.
pub proof fn the_latest_forest_counts(forests: Seq<Arc<MastForest>>, last: Arc<MastForest>, digest: Word)
    ensures
        ({
            let forest = crate::exec::snapshot::forest_bytes(*last);
            let code = code_of(forests.push(last));
            if local_procedures(forest).contains(digest) {
                code.dom().contains(digest) && code[digest] == forest
            } else {
                &&& code.dom().contains(digest) == code_of(forests).dom().contains(digest)
                &&& code.dom().contains(digest) ==> code[digest] == code_of(forests)[digest]
            }
        }),
{
    assert(forests.push(last).drop_last() =~= forests);
}

/// No code.
///
/// Trusted: `MemMastForestStore::default` of `miden-processor`.
#[verifier::external_body]
fn no_code() -> (r: MemMastForestStore)
    ensures
        stored(r) == code_of(Seq::empty()),
{
    MemMastForestStore::default()
}

/// Adds a forest.
///
/// Trusted: `MemMastForestStore::insert` of `miden-processor`, which makes the forest known under
/// the hash of each procedure that it holds itself. Which those are is named, not described.
#[verifier::external_body]
fn add_forest(store: &mut MemMastForestStore, forest: Arc<MastForest>)
    ensures
        stored(*final(store)) == with_procedures(
            stored(*old(store)),
            crate::exec::snapshot::forest_bytes(*forest),
            local_procedures(crate::exec::snapshot::forest_bytes(*forest)),
        ),
{
    store.insert(forest);
}

/// The forest that holds a procedure.
///
/// Trusted: `MemMastForestStore::get` of `miden-processor`.
#[verifier::external_body]
fn forest_with(store: &MemMastForestStore, digest: Word) -> (r: Option<Arc<MastForest>>)
    requires
        Word::valid(digest),
    ensures
        match r {
            Some(forest) => stored(*store).dom().contains(digest) && stored(*store)[digest]
                == crate::exec::snapshot::forest_bytes(*forest),
            None => !stored(*store).dom().contains(digest),
        },
{
    let elements = [digest.a, digest.b, digest.c, digest.d];
    let digest = elements.map(|e| miden_core::Felt::new_unchecked(e.value));
    store.get(&miden_core::Word::new(digest))
}

// ---------------------------------------------------------------------------------------------
// The host
// ---------------------------------------------------------------------------------------------

/// A call of a handler: the handler, by its number, and what it is called with.
#[derive(Debug, Clone, Copy, PartialEq, Eq, Structural)]
pub struct HandlerCall {
    pub handler: usize,
    pub clk: u32,
    pub event: TraceEvent,
}

/// A host that plays back recorded events, and keeps track of handlers, which are known by number.
pub struct DebuggerHost {
    /// The code that programs can call.
    pub store: MemMastForestStore,
    /// The handlers of each event, in the order in which they were registered.
    pub tracing_callbacks: BTreeMap<u32, Vec<usize>>,
    /// The handler that is told about failed assertions.
    pub on_assert_failed: Option<usize>,
    /// The changes that are still to be played back, one entry for each event.
    pub event_replay: VecDeque<Vec<AdviceMutation>>,
}

impl DebuggerHost {
    /// The code that programs can call, by the hashes of its procedures.
    pub open spec fn code(&self) -> Map<Word, Seq<u8>> {
        stored(self.store)
    }

    /// The handlers under a number.
    pub open spec fn handlers(&self, key: u32) -> Seq<usize> {
        if self.tracing_callbacks@.contains_key(key) {
            self.tracing_callbacks@[key]@
        } else {
            Seq::empty()
        }
    }

    /// A host without code, handlers or recorded events.
    pub fn new() -> (r: Self)
        ensures
            r.code() == code_of(Seq::empty()),
            forall|key: u32| r.handlers(key) == Seq::<usize>::empty(),
            r.on_assert_failed is None,
            r.event_replay@.len() == 0,
    {
        DebuggerHost {
            store: no_code(),
            tracing_callbacks: BTreeMap::new(),
            on_assert_failed: None,
            event_replay: VecDeque::new(),
        }
    }

    /// Sets the changes that are to be played back.
    pub fn set_event_replay(&mut self, events: VecDeque<Vec<AdviceMutation>>)
        ensures
            *final(self) == (DebuggerHost { event_replay: events, ..*old(self) }),
    {
        self.event_replay = events;
    }

    /// Registers a handler for an event, behind those that are registered for it.
    pub fn register_trace_handler(&mut self, event: TraceEvent, handler: usize)
        ensures
            final(self).handlers(event.key()) == old(self).handlers(event.key()).push(handler),
            forall|key: u32|
                key != event.key() ==> #[trigger] final(self).handlers(key) == old(self).handlers(
                    key,
                ),
            final(self).store == old(self).store,
            final(self).on_assert_failed == old(self).on_assert_failed,
            final(self).event_replay == old(self).event_replay,
    {
        broadcast use vstd::std_specs::btree::group_btree_axioms;

        let key: u32 = event.handler_key();
        let mut handlers: Vec<usize> = match self.tracing_callbacks.remove(&key) {
            Some(handlers) => handlers,
            None => Vec::new(),
        };
        proof {
            assert(handlers@ =~= old(self).handlers(key));
        }
        handlers.push(handler);
        self.tracing_callbacks.insert(key, handlers);
    }

    /// Registers the handler that is told about failed assertions.
    pub fn register_assert_failed_tracer(&mut self, handler: usize)
        ensures
            *final(self) == (DebuggerHost { on_assert_failed: Some(handler), ..*old(self) }),
    {
        self.on_assert_failed = Some(handler);
    }

    /// The call that is due when an assertion failed, if there is a handler for it.
    pub fn handle_assert_failed(&self, clk: u32, err_code: Option<u32>) -> (r: Option<HandlerCall>)
        ensures
            match self.on_assert_failed {
                Some(handler) => r == Some(
                    HandlerCall { handler, clk, event: TraceEvent::AssertionFailed(err_code) },
                ),
                None => r is None,
            },
    {
        match self.on_assert_failed {
            Some(handler) => Some(
                HandlerCall { handler, clk, event: TraceEvent::AssertionFailed(err_code) },
            ),
            None => None,
        }
    }

    /// Adds code that programs can call.
    pub fn load_mast_forest(&mut self, forest: Arc<MastForest>)
        ensures
            final(self).code() == with_forest(
                old(self).code(),
                crate::exec::snapshot::forest_bytes(*forest),
            ),
            *final(self) == (DebuggerHost { store: final(self).store, ..*old(self) }),
    {
        add_forest(&mut self.store, forest);
    }

    /// The code that holds the procedure with a hash.
    pub fn get_mast_forest(&self, digest: Word) -> (r: Option<Arc<MastForest>>)
        requires
            Word::valid(digest),
        ensures
            match r {
                Some(forest) => self.code().dom().contains(digest) && self.code()[digest]
                    == crate::exec::snapshot::forest_bytes(*forest),
                None => !self.code().dom().contains(digest),
            },
    {
        forest_with(&self.store, digest)
    }

    /// The changes for the next event: those that were recorded for it, or none.
    pub fn on_event(&mut self) -> (r: Vec<AdviceMutation>)
        ensures
            old(self).event_replay@.len() > 0 ==> {
                &&& r == old(self).event_replay@[0]
                &&& final(self).event_replay@ == old(self).event_replay@.skip(1)
            },
            old(self).event_replay@.len() == 0 ==> {
                &&& r@.len() == 0
                &&& final(self).event_replay@.len() == 0
            },
            *final(self) == (DebuggerHost { event_replay: final(self).event_replay, ..*old(self) }),
    {
        match self.event_replay.pop_front() {
            Some(mutations) => mutations,
            None => Vec::new(),
        }
    }

    /// The calls that are due when a program reports `trace_id`, in order.
    pub fn on_trace(&self, clk: u32, trace_id: u32) -> (r: Vec<HandlerCall>)
        ensures
            r@ == self.handlers(trace_id).map_values(
                |handler: usize| HandlerCall { handler, clk, event: TraceEvent::of_id(trace_id) },
            ),
    {
        broadcast use vstd::std_specs::btree::group_btree_axioms;

        let event = TraceEvent::from_id(trace_id);
        let mut calls: Vec<HandlerCall> = Vec::new();
        if let Some(handlers) = self.tracing_callbacks.get(&trace_id) {
            let mut i: usize = 0;
            while i < handlers.len()
                invariant
                    i <= handlers@.len(),
                    calls@.len() == i,
                    forall|k: int|
                        0 <= k < i ==> #[trigger] calls@[k] == (HandlerCall {
                            handler: handlers@[k],
                            clk,
                            event,
                        }),
                decreases handlers@.len() - i,
            {
                calls.push(HandlerCall { handler: handlers[i], clk, event });
                i += 1;
            }
        }
        proof {
            assert(calls@ =~= self.handlers(trace_id).map_values(
                |handler: usize| HandlerCall { handler, clk, event: TraceEvent::of_id(trace_id) },
            ));
        }
        calls
    }
}

/// The changes that are still to be played back after `n` events.
pub open spec fn after_events<M>(queue: Seq<M>, n: nat) -> Seq<M>
    decreases n,
{
    if n == 0 {
        queue
    } else {
        let queue = after_events(queue, (n - 1) as nat);
        if queue.len() > 0 {
            queue.skip(1)
        } else {
            queue
        }
    }
}

/// Recorded events are played back in the order in which they were recorded: the event behind `n`
/// others gets the changes that were recorded for it, and once all are played back, there are none.
pub proof fn events_play_back_in_order<M>(queue: Seq<M>, n: nat)
    ensures
        n < queue.len() ==> after_events(queue, n).len() > 0 && after_events(queue, n)[0]
            == queue[n as int],
        n >= queue.len() ==> after_events(queue, n).len() == 0,
{
    remaining_events(queue, n);
}

proof fn remaining_events<M>(queue: Seq<M>, n: nat)
    ensures
        after_events(queue, n) == (if n <= queue.len() {
            queue.skip(n as int)
        } else {
            Seq::empty()
        }),
    decreases n,
{
    if n == 0 {
        assert(queue.skip(0) =~= queue);
    } else {
        remaining_events(queue, (n - 1) as nat);
        if n <= queue.len() {
            assert(queue.skip(n - 1).skip(1) =~= queue.skip(n as int));
        } else {
            assert(after_events(queue, n) =~= Seq::empty());
        }
    }
}

/// A program reports 240 where a call frame starts, and 252 where one ends; any other number stands
/// for nothing that is known. Handlers are found under the number that is reported.
pub proof fn numbers_stand_for_events(id: u32)
    ensures
        TraceEvent::of_id(240) == TraceEvent::FrameStart,
        TraceEvent::of_id(252) == TraceEvent::FrameEnd,
        id != 240 && id != 252 ==> TraceEvent::of_id(id) == TraceEvent::Unknown(id),
        TraceEvent::of_id(id).key() == id,
        TraceEvent::AssertionFailed(Some(id)).key() == id,
        TraceEvent::AssertionFailed(None).key() == 0xffff_ffffu32,
{
}

/// A procedure is known where one of the forests that were added holds it, and is found in the last
/// one of these.
pub proof fn procedures_are_found_in_the_forests(
    forests: Seq<Arc<MastForest>>,
    digest: Word,
    i: int,
)
    requires
        0 <= i < forests.len(),
        local_procedures(crate::exec::snapshot::forest_bytes(*forests[i])).contains(digest),
        forall|k: int|
            i < k < forests.len() ==> !local_procedures(
                crate::exec::snapshot::forest_bytes(*(#[trigger] forests[k])),
            ).contains(digest),
    ensures
        code_of(forests).dom().contains(digest),
        code_of(forests)[digest] == crate::exec::snapshot::forest_bytes(*forests[i]),
    decreases forests.len(),
{
    let front = forests.drop_last();
    assert(forests =~= front.push(forests.last()));
    the_latest_forest_counts(front, forests.last(), digest);
    if i < forests.len() - 1 {
        assert(!local_procedures(
            crate::exec::snapshot::forest_bytes(*forests[forests.len() - 1]),
        ).contains(digest));
        assert forall|k: int| i < k < front.len() implies !local_procedures(
            crate::exec::snapshot::forest_bytes(*(#[trigger] front[k])),
        ).contains(digest) by {
            assert(front[k] == forests[k]);
        }
        procedures_are_found_in_the_forests(front, digest, i);
    }
}

/// No procedure is known that none of the forests holds.
pub proof fn no_other_procedures_are_found(forests: Seq<Arc<MastForest>>, digest: Word)
    requires
        forall|k: int|
            0 <= k < forests.len() ==> !local_procedures(
                crate::exec::snapshot::forest_bytes(*(#[trigger] forests[k])),
            ).contains(digest),
    ensures
        !code_of(forests).dom().contains(digest),
    decreases forests.len(),
{
    if forests.len() > 0 {
        let front = forests.drop_last();
        assert(forests =~= front.push(forests.last()));
        the_latest_forest_counts(front, forests.last(), digest);
        assert(!local_procedures(
            crate::exec::snapshot::forest_bytes(*forests[forests.len() - 1]),
        ).contains(digest));
        no_other_procedures_are_found(front, digest);
    }
}

} // verus!
