//! What is noted down while a program is recorded.
use std::sync::Arc;

use miden_core::mast::MastForest;
use vstd::prelude::*;
use vstd::string::*;

verus! {

// ---------------------------------------------------------------------------------------------
// The code that a host supplied
// ---------------------------------------------------------------------------------------------

/// Code that a host supplied, with the number that tells whether it is the same code as another.
pub struct RecordedForest {
    pub id: usize,
    pub forest: Arc<MastForest>,
}

/// The code that a host supplied during a run. The same code is asked for many times, and is kept
/// once.
pub struct MastForestRecorder {
    forests: Vec<RecordedForest>,
}

/// Whether code with this number was noted down.
pub open spec fn has_id(forests: Seq<(usize, MastForest)>, id: usize) -> bool {
    exists|i: int| 0 <= i < forests.len() && (#[trigger] forests[i]).0 == id
}

/// The code noted down, once the host has supplied some: nothing new where it was noted down before.
pub open spec fn recorded(
    forests: Seq<(usize, MastForest)>,
    id: usize,
    forest: MastForest,
) -> Seq<(usize, MastForest)> {
    if has_id(forests, id) {
        forests
    } else {
        forests.push((id, forest))
    }
}

/// Code that is supplied again is not noted down again.
pub proof fn code_is_noted_down_once(forests: Seq<(usize, MastForest)>, id: usize, forest: MastForest)
    ensures
        has_id(recorded(forests, id, forest), id),
        recorded(recorded(forests, id, forest), id, forest) == recorded(forests, id, forest),
{
    if !has_id(forests, id) {
        assert(forests.push((id, forest))[forests.len() as int].0 == id);
    }
}

impl View for MastForestRecorder {
    type V = Seq<(usize, MastForest)>;

    /// The code with its numbers, in the order in which it was noted down.
    closed spec fn view(&self) -> Seq<(usize, MastForest)> {
        self.forests@.map_values(|f: RecordedForest| (f.id, *f.forest))
    }
}

impl MastForestRecorder {
    /// No code is kept twice.
    pub open spec fn wf(&self) -> bool {
        forall|i: int, j: int| 0 <= i < j < self@.len() ==> self@[i].0 != self@[j].0
    }

    /// A recorder that holds nothing.
    pub fn new() -> (r: Self)
        ensures
            r.wf(),
            r@.len() == 0,
    {
        MastForestRecorder { forests: Vec::new() }
    }

    /// Notes down code that the host supplied, unless it was noted down before.
    pub fn record(&mut self, id: usize, forest: Arc<MastForest>)
        requires
            old(self).wf(),
        ensures
            final(self).wf(),
            final(self)@ == recorded(old(self)@, id, *forest),
    {
        let mut i: usize = 0;
        while i < self.forests.len()
            invariant
                i <= self.forests@.len(),
                *self == *old(self),
                old(self).wf(),
                forall|k: int| 0 <= k < i ==> (#[trigger] self@[k]).0 != id,
            decreases self.forests@.len() - i,
        {
            if self.forests[i].id == id {
                assert(self@[i as int].0 == id);
                return;
            }
            i += 1;
        }
        self.forests.push(RecordedForest { id, forest });
        proof {
            assert(self@ =~= old(self)@.push((id, *forest)));
        }
    }

    /// The code noted down so far, in order.
    pub fn snapshot(&self) -> (r: Vec<Arc<MastForest>>)
        ensures
            r@.len() == self@.len(),
            forall|i: int| 0 <= i < r@.len() ==> *(#[trigger] r@[i]) == self@[i].1,
    {
        let mut out: Vec<Arc<MastForest>> = Vec::new();
        let mut i: usize = 0;
        while i < self.forests.len()
            invariant
                i <= self.forests@.len(),
                out@.len() == i,
                forall|k: int| 0 <= k < i ==> *(#[trigger] out@[k]) == self@[k].1,
            decreases self.forests@.len() - i,
        {
            out.push(Arc::clone(&self.forests[i].forest));
            i += 1;
        }
        out
    }

    /// Forgets everything, as when a run starts from the beginning.
    pub fn clear(&mut self)
        ensures
            final(self).wf(),
            final(self)@.len() == 0,
    {
        self.forests = Vec::new();
    }
}

// ---------------------------------------------------------------------------------------------
// The outcome of writing a snapshot
// ---------------------------------------------------------------------------------------------

/// A snapshot that was written.
#[derive(Debug)]
pub struct ReplaySnapshotWrite {
    pub path: String,
    pub event_count: usize,
    pub forest_count: usize,
}

/// A snapshot that could not be written.
#[derive(Debug)]
pub struct ReplaySnapshotWriteError {
    pub path: String,
    pub message: String,
}

impl ReplaySnapshotWriteError {
    /// What the error is printed as.
    pub open spec fn printed(&self) -> Seq<char> {
        "failed to write replay snapshot to "@ + self.path@ + ": "@ + self.message@
    }

    /// What the error is printed as.
    pub fn text(&self) -> (r: String)
        ensures
            r@ == self.printed(),
    {
        let mut out = "failed to write replay snapshot to ".to_owned();
        out.append(self.path.as_str());
        out.append(": ");
        out.append(self.message.as_str());
        out
    }
}

/// The outcome of the last attempt to write a snapshot.
#[derive(Debug)]
pub struct ReplaySnapshotRecorder {
    pub status: Option<Result<ReplaySnapshotWrite, ReplaySnapshotWriteError>>,
}

impl ReplaySnapshotRecorder {
    /// A recorder without an outcome.
    pub fn new() -> (r: Self)
        ensures
            r.status is None,
    {
        ReplaySnapshotRecorder { status: None }
    }

    /// Hands out the last outcome, and keeps none.
    pub fn take(&mut self) -> (r: Option<Result<ReplaySnapshotWrite, ReplaySnapshotWriteError>>)
        ensures
            r == old(self).status,
            final(self).status is None,
    {
        self.status.take()
    }

    /// Keeps a success as the last outcome.
    pub fn record_success(&mut self, write: ReplaySnapshotWrite)
        ensures
            final(self).status == Some(Ok::<_, ReplaySnapshotWriteError>(write)),
    {
        self.status = Some(Ok(write));
    }

    /// Keeps a failure as the last outcome.
    pub fn record_error(&mut self, path: String, message: String)
        ensures
            final(self).status == Some(
                Err::<ReplaySnapshotWrite, _>(ReplaySnapshotWriteError { path, message }),
            ),
    {
        self.status = Some(Err(ReplaySnapshotWriteError { path, message }));
    }
}

/// Code that is noted down comes behind all that was noted down before, which stays as it is; and
/// nothing but that code is noted down.
pub proof fn code_is_noted_down_in_order(
    forests: Seq<(usize, MastForest)>,
    id: usize,
    forest: MastForest,
    other: usize,
)
    ensures
        forests.is_prefix_of(recorded(forests, id, forest)),
        !has_id(forests, id) ==> recorded(forests, id, forest).len() == forests.len() + 1
            && recorded(forests, id, forest).last() == (id, forest),
        has_id(forests, id) ==> recorded(forests, id, forest).len() == forests.len(),
        has_id(recorded(forests, id, forest), other) <==> has_id(forests, other) || other == id,
{
    let after = recorded(forests, id, forest);
    assert(forests =~= after.subrange(0, forests.len() as int));
    if has_id(forests, other) {
        let i = choose|i: int| 0 <= i < forests.len() && (#[trigger] forests[i]).0 == other;
        assert(after[i].0 == other);
    }
    if !has_id(forests, id) {
        assert(after[forests.len() as int].0 == id);
        if has_id(after, other) && other != id {
            let i = choose|i: int| 0 <= i < after.len() && (#[trigger] after[i]).0 == other;
            assert(forests[i].0 == other);
        }
    }
}

/// An error tells where the snapshot was to be written, and ends with what went wrong.
pub proof fn a_failed_write_names_its_path(error: ReplaySnapshotWriteError)
    ensures
        error.message@.is_suffix_of(error.printed()),
        exists|before: Seq<char>, after: Seq<char>|
            error.printed() == #[trigger] (before + error.path@ + after),
{
    let whole = error.printed();
    let m = error.message@;
    assert(m =~= whole.subrange(whole.len() - m.len(), whole.len() as int));
    assert(whole =~= "failed to write replay snapshot to "@ + error.path@ + (": "@ + m));
}

} // verus!
