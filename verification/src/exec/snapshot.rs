//! A recording of a run that holds all that is needed to run the program again without the host it
//! ran with.
//!
//! A live run relies on its host for two things that a bare debugger cannot make up: the changes to
//! the advice provider that event handlers ask for, and the code of the procedures that are called
//! by their hash. A [`ReplaySnapshot`] holds both, together with the program and its inputs.
use std::sync::Arc;

use miden_core::advice::AdviceInputs;
use miden_core::crypto::merkle::{EmptySubtreeRoots, NodeIndex};
use miden_core::mast::MastForest;
use miden_core::program::Program;
use miden_core::serde::{Deserializable, DeserializationError, Serializable};
use vstd::prelude::*;
use vstd::string::*;

use crate::exec::advice::{AdviceMutation, Felt, MutationView, Record, MODULUS};
use crate::exec::codec::{ReadError, ReadErrorView};
use crate::exec::options::{RunOptions, StackInputs};

verus! {

// ---------------------------------------------------------------------------------------------
// Programs and forests
// ---------------------------------------------------------------------------------------------

/// A program of the virtual machine, of which only its bytes are looked at.
#[verifier::external_type_specification]
#[verifier::external_body]
pub struct ExProgram(Program);

/// Code of the virtual machine, of which only its bytes are looked at.
#[verifier::external_type_specification]
#[verifier::external_body]
pub struct ExMastForest(MastForest);

/// The bytes of a program.
pub uninterp spec fn program_bytes(program: Program) -> Seq<u8>;

/// The program at the front of some bytes, by its own bytes, and how many of them it takes up; or
/// why there is none.
pub uninterp spec fn program_parsed(s: Seq<u8>) -> Result<(Seq<u8>, nat), ReadErrorView>;

/// The bytes of a forest.
pub uninterp spec fn forest_bytes(forest: MastForest) -> Seq<u8>;

/// The forest at the front of some bytes, by its own bytes, and how many of them it takes up; or
/// why there is none.
pub uninterp spec fn forest_parsed(s: Seq<u8>) -> Result<(Seq<u8>, nat), ReadErrorView>;

/// The bytes of a program.
///
/// Trusted: `Program::to_bytes` of `miden-core`. The result is named, not described.
#[verifier::external_body]
fn write_program(program: &Program) -> (r: Vec<u8>)
    ensures
        r@ == program_bytes(*program),
{
    program.to_bytes()
}

/// Reads a program.
///
/// Trusted: `Program::read_from` of `miden-core`, on the bytes from `pos` on. The result is named,
/// not described; where there is a program, it does not matter what follows the bytes. That what was
/// written can be read back is not claimed of every program.
#[verifier::external_body]
fn read_program(bytes: &Vec<u8>, pos: usize) -> (r: Result<(Program, usize), ReadError>)
    requires
        pos <= bytes@.len(),
    ensures
        match r {
            Ok((program, next)) => pos <= next <= bytes@.len() && program_parsed(
                bytes@.skip(pos as int),
            ) == Ok::<_, ReadErrorView>((program_bytes(program), (next - pos) as nat)),
            Err(e) => program_parsed(bytes@.skip(pos as int)) == Err::<(Seq<u8>, nat), _>(e@),
        },
        r is Ok ==> forall|rest: Seq<u8>| #[trigger]
            program_parsed(bytes@.skip(pos as int) + rest) == program_parsed(
                bytes@.skip(pos as int),
            ),
{
    let mut reader = std::io::Cursor::new(&bytes[pos..]);
    match Program::read_from(&mut reader) {
        Ok(program) => Ok((program, pos + reader.position() as usize)),
        Err(DeserializationError::UnexpectedEOF) => Err(ReadError::UnexpectedEof),
        Err(DeserializationError::InvalidValue(m)) => Err(ReadError::InvalidValue(m)),
        Err(DeserializationError::UnknownError(m)) => Err(ReadError::UnknownError(m)),
    }
}

/// The bytes of a forest.
///
/// Trusted: `MastForest::to_bytes` of `miden-core`. The result is named, not described.
#[verifier::external_body]
fn write_forest(forest: &MastForest) -> (r: Vec<u8>)
    ensures
        r@ == forest_bytes(*forest),
{
    forest.to_bytes()
}

/// Reads a forest.
///
/// Trusted: `MastForest::read_from` of `miden-core`, on the bytes from `pos` on. The result is
/// named, not described; where there is a forest, it does not matter what follows the bytes. That
/// what was written can be read back is not claimed of every forest.
#[verifier::external_body]
fn read_forest(bytes: &Vec<u8>, pos: usize) -> (r: Result<(MastForest, usize), ReadError>)
    requires
        pos <= bytes@.len(),
    ensures
        match r {
            Ok((forest, next)) => pos <= next <= bytes@.len() && forest_parsed(
                bytes@.skip(pos as int),
            ) == Ok::<_, ReadErrorView>((forest_bytes(forest), (next - pos) as nat)),
            Err(e) => forest_parsed(bytes@.skip(pos as int)) == Err::<(Seq<u8>, nat), _>(e@),
        },
        r is Ok ==> forall|rest: Seq<u8>| #[trigger]
            forest_parsed(bytes@.skip(pos as int) + rest) == forest_parsed(
                bytes@.skip(pos as int),
            ),
{
    let mut reader = std::io::Cursor::new(&bytes[pos..]);
    match MastForest::read_from(&mut reader) {
        Ok(forest) => Ok((forest, pos + reader.position() as usize)),
        Err(DeserializationError::UnexpectedEOF) => Err(ReadError::UnexpectedEof),
        Err(DeserializationError::InvalidValue(m)) => Err(ReadError::InvalidValue(m)),
        Err(DeserializationError::UnknownError(m)) => Err(ReadError::UnknownError(m)),
    }
}

/// What was read, together with the bytes behind it.
pub open spec fn with_rest(parsed: Result<(Seq<u8>, nat), ReadErrorView>, s: Seq<u8>) -> Result<
    (Seq<u8>, Seq<u8>),
    ReadErrorView,
> {
    match parsed {
        Ok((content, used)) => Ok((content, s.skip(used as int))),
        Err(e) => Err(e),
    }
}

/// A program, by its bytes.
impl Record for Program {
    type Content = Seq<u8>;

    open spec fn content(&self) -> Seq<u8> {
        program_bytes(*self)
    }

    /// Whether the bytes, read as a program, give a program with the same bytes.
    open spec fn valid(content: Seq<u8>) -> bool {
        forall|rest: Seq<u8>| #[trigger]
            program_parsed(content + rest) == Ok::<(Seq<u8>, nat), ReadErrorView>(
                (content, content.len()),
            )
    }

    open spec fn encoded(content: Seq<u8>) -> Seq<u8> {
        content
    }

    open spec fn parsed(s: Seq<u8>) -> Result<(Seq<u8>, Seq<u8>), ReadErrorView> {
        with_rest(program_parsed(s), s)
    }

    proof fn reads_back(content: Seq<u8>, rest: Seq<u8>) {
        assert((content + rest).skip(content.len() as int) =~= rest);
    }

    fn write(&self, out: &mut Vec<u8>) {
        let mut bytes = write_program(self);
        out.append(&mut bytes);
    }

    fn read(bytes: &Vec<u8>, pos: usize) -> (r: Result<(Self, usize), ReadError>) {
        match read_program(bytes, pos) {
            Ok((program, next)) => {
                proof {
                    assert(bytes@.skip(pos as int).skip(next - pos) =~= bytes@.skip(next as int));
                }
                Ok((program, next))
            },
            Err(e) => Err(e),
        }
    }
}

/// A forest, by its bytes.
impl Record for Arc<MastForest> {
    type Content = Seq<u8>;

    open spec fn content(&self) -> Seq<u8> {
        forest_bytes(**self)
    }

    /// Whether the bytes, read as a forest, give a forest with the same bytes.
    open spec fn valid(content: Seq<u8>) -> bool {
        forall|rest: Seq<u8>| #[trigger]
            forest_parsed(content + rest) == Ok::<(Seq<u8>, nat), ReadErrorView>(
                (content, content.len()),
            )
    }

    open spec fn encoded(content: Seq<u8>) -> Seq<u8> {
        content
    }

    open spec fn parsed(s: Seq<u8>) -> Result<(Seq<u8>, Seq<u8>), ReadErrorView> {
        with_rest(forest_parsed(s), s)
    }

    proof fn reads_back(content: Seq<u8>, rest: Seq<u8>) {
        assert((content + rest).skip(content.len() as int) =~= rest);
    }

    fn write(&self, out: &mut Vec<u8>) {
        let mut bytes = write_forest(&**self);
        out.append(&mut bytes);
    }

    fn read(bytes: &Vec<u8>, pos: usize) -> (r: Result<(Self, usize), ReadError>) {
        match read_forest(bytes, pos) {
            Ok((forest, next)) => {
                proof {
                    assert(bytes@.skip(pos as int).skip(next - pos) =~= bytes@.skip(next as int));
                }
                Ok((Arc::new(forest), next))
            },
            Err(e) => Err(e),
        }
    }
}

// ---------------------------------------------------------------------------------------------
// Advice inputs
// ---------------------------------------------------------------------------------------------

/// The advice that a program starts with.
#[verifier::external_type_specification]
#[verifier::external_body]
pub struct ExAdviceInputs(AdviceInputs);

/// What advice inputs hold.
pub struct AdviceContents {
    /// The advice stack.
    pub stack: Seq<u64>,
    /// The advice map.
    pub map: Map<Seq<u64>, Seq<u64>>,
    /// The children of each node of the Merkle store, those of the empty subtrees included.
    pub nodes: Map<Seq<u64>, (Seq<u64>, Seq<u64>)>,
}

/// What advice inputs hold.
pub uninterp spec fn advice_of(inputs: AdviceInputs) -> AdviceContents;

/// What the advice inputs at the front of some bytes hold, and how many of the bytes they take up;
/// or why there are none.
pub uninterp spec fn advice_parsed(s: Seq<u8>) -> Result<(AdviceContents, nat), ReadErrorView>;

/// The roots of the empty subtrees of a Merkle tree of this depth, from that of the tree itself down
/// to an empty leaf.
pub uninterp spec fn empty_roots(tree_depth: u8) -> Seq<Seq<u64>>;

/// The words in a list, element by element.
pub open spec fn word_values(words: Seq<Vec<u64>>) -> Seq<Seq<u64>> {
    words.map_values(|word: Vec<u64>| word@)
}

/// Whether these are the elements of a word.
pub open spec fn is_word(values: Seq<u64>) -> bool {
    values.len() == 4 && forall|i: int| 0 <= i < 4 ==> #[trigger] values[i] < MODULUS
}

/// The roots of the empty subtrees of a Merkle tree of this depth.
///
/// Trusted: `EmptySubtreeRoots::empty_hashes` of `miden-crypto`, which gives a word for each depth
/// from that of the root to that of the leaves. Which words these are is named, not described.
#[verifier::external_body]
fn empty_subtrees(tree_depth: u8) -> (r: Vec<Vec<u64>>)
    ensures
        word_values(r@) == empty_roots(tree_depth),
        r@.len() == tree_depth + 1,
        forall|i: int| 0 <= i < r@.len() ==> is_word(#[trigger] r@[i]@),
{
    let roots = EmptySubtreeRoots::empty_hashes(tree_depth).iter();
    roots.map(|root| root.iter().map(|e| e.as_canonical_u64()).collect()).collect()
}

/// A child of a node of the Merkle store, the left one at position 0 and the right one at 1; none
/// where there is no such node.
///
/// Trusted: `MerkleStore::get_node` of `miden-crypto`, on the store of the advice inputs, at depth 1
/// below the node.
#[verifier::external_body]
fn child_of(inputs: &AdviceInputs, node: &Vec<u64>, position: u64) -> (r: Option<Vec<u64>>)
    requires
        is_word(node@),
        position <= 1,
    ensures
        match r {
            Some(child) => advice_of(*inputs).nodes.contains_key(node@) && child@ == if position == 0 {
                advice_of(*inputs).nodes[node@].0
            } else {
                advice_of(*inputs).nodes[node@].1
            },
            None => !advice_of(*inputs).nodes.contains_key(node@),
        },
{
    let elements = [node[0], node[1], node[2], node[3]].map(miden_core::Felt::new_unchecked);
    let index = NodeIndex::new(1, position).expect("there are two children");
    let child = inputs.store.get_node(miden_core::Word::new(elements), index).ok();
    child.map(|child| child.iter().map(|e| e.as_canonical_u64()).collect())
}

/// The nodes of empty subtrees with these roots: each but the smallest has two children, both of
/// them the next smaller one.
pub open spec fn empty_nodes(roots: Seq<Seq<u64>>) -> Map<Seq<u64>, (Seq<u64>, Seq<u64>)>
    decreases roots.len(),
{
    if roots.len() < 2 {
        Map::empty()
    } else {
        empty_nodes(roots.skip(1)).insert(roots[0], (roots[1], roots[1]))
    }
}

impl AdviceContents {
    /// No advice: the Merkle store holds the empty subtrees alone.
    pub open spec fn none() -> Self {
        AdviceContents {
            stack: Seq::empty(),
            map: Map::empty(),
            nodes: empty_nodes(empty_roots(255)),
        }
    }

    /// Whether the Merkle store holds the empty subtrees, and holds them as they are.
    pub open spec fn has_empty_subtrees(self) -> bool {
        self.holds(empty_roots(255))
    }

    /// Whether the Merkle store holds the empty subtrees with these roots, and holds them as they
    /// are.
    pub open spec fn holds(self, roots: Seq<Seq<u64>>) -> bool {
        forall|i: int|
            0 <= i < roots.len() - 1 ==> {
                &&& self.nodes.contains_key(#[trigger] roots[i])
                &&& self.nodes[roots[i]] == (roots[i + 1], roots[i + 1])
            }
    }

    /// The same, with the empty subtrees put back into the Merkle store.
    pub open spec fn with_empty_subtrees(self, roots: Seq<Seq<u64>>) -> Self {
        AdviceContents { nodes: self.nodes.union_prefer_right(empty_nodes(roots)), ..self }
    }
}

/// Putting the empty subtrees back changes nothing where they are.
pub proof fn empty_subtrees_stay(contents: AdviceContents)
    requires
        contents.has_empty_subtrees(),
    ensures
        contents.with_empty_subtrees(empty_roots(255)) == contents,
{
    held_nodes_are_there(contents, empty_roots(255));
    assert(contents.with_empty_subtrees(empty_roots(255)).nodes =~= contents.nodes);
}

proof fn held_nodes_are_there(contents: AdviceContents, roots: Seq<Seq<u64>>)
    requires
        contents.holds(roots),
    ensures
        empty_nodes(roots).submap_of(contents.nodes),
    decreases roots.len(),
{
    if roots.len() >= 2 {
        let smaller = roots.skip(1);
        assert forall|i: int| 0 <= i < smaller.len() - 1 implies {
            &&& contents.nodes.contains_key(#[trigger] smaller[i])
            &&& contents.nodes[smaller[i]] == (smaller[i + 1], smaller[i + 1])
        } by {
            assert(smaller[i] == roots[i + 1]);
        }
        held_nodes_are_there(contents, smaller);
        assert(contents.nodes.contains_key(roots[0]));
    }
}

fn same_values(a: &Vec<u64>, b: &Vec<u64>) -> (r: bool)
    ensures
        r == (a@ == b@),
{
    if a.len() != b.len() {
        return false;
    }
    let mut i: usize = 0;
    while i < a.len()
        invariant
            i <= a@.len() == b@.len(),
            forall|k: int| 0 <= k < i ==> a@[k] == b@[k],
        decreases a@.len() - i,
    {
        if a[i] != b[i] {
            return false;
        }
        i += 1;
    }
    proof {
        assert(a@ =~= b@);
    }
    true
}

/// Tells whether the Merkle store of advice inputs holds the empty subtrees as they are.
fn holds_empty_subtrees(inputs: &AdviceInputs) -> (r: bool)
    ensures
        r == advice_of(*inputs).has_empty_subtrees(),
{
    let roots = empty_subtrees(255);
    let ghost values = empty_roots(255);
    let mut i: usize = 0;
    while i < roots.len() - 1
        invariant
            i < roots@.len() == values.len() == 256,
            values == empty_roots(255),
            values == word_values(roots@),
            forall|k: int| 0 <= k < roots@.len() ==> is_word(#[trigger] roots@[k]@),
            forall|k: int|
                0 <= k < i ==> {
                    &&& advice_of(*inputs).nodes.contains_key(#[trigger] values[k])
                    &&& advice_of(*inputs).nodes[values[k]] == (values[k + 1], values[k + 1])
                },
        decreases roots@.len() - i,
    {
        proof {
            assert(values[i as int] == roots@[i as int]@);
            assert(values[i + 1] == roots@[i + 1]@);
        }
        let here = match (child_of(inputs, &roots[i], 0), child_of(inputs, &roots[i], 1)) {
            (Some(left), Some(right)) => same_values(&left, &roots[i + 1]) && same_values(
                &right,
                &roots[i + 1],
            ),
            _ => false,
        };
        if !here {
            return false;
        }
        i += 1;
    }
    true
}

/// Whether the bytes, read as advice inputs, give inputs that hold this, whatever follows them.
pub open spec fn reads_as_advice(bytes: Seq<u8>, contents: AdviceContents) -> bool {
    forall|rest: Seq<u8>| #[trigger]
        advice_parsed(bytes + rest) == Ok::<(AdviceContents, nat), ReadErrorView>(
            (contents, bytes.len()),
        )
}

/// The bytes of advice inputs.
///
/// Trusted: `AdviceInputs::to_bytes` of `miden-core`. The nodes of the Merkle store come in
/// whatever order a hash map is walked, so that only this is claimed of the bytes: read again, they
/// give inputs that hold the same, but that the reader puts the nodes of the empty subtrees of a
/// tree of depth 255 back, over whatever else was stored in their place.
#[verifier::external_body]
fn write_advice(inputs: &AdviceInputs) -> (r: Vec<u8>)
    ensures
        reads_as_advice(r@, advice_of(*inputs).with_empty_subtrees(empty_roots(255))),
{
    inputs.to_bytes()
}

/// Reads advice inputs.
///
/// Trusted: `AdviceInputs::read_from` of `miden-core`, on the bytes from `pos` on. The result is
/// named, not described.
#[verifier::external_body]
fn read_advice(bytes: &Vec<u8>, pos: usize) -> (r: Result<(AdviceInputs, usize), ReadError>)
    requires
        pos <= bytes@.len(),
    ensures
        match r {
            Ok((inputs, next)) => pos <= next <= bytes@.len() && advice_parsed(
                bytes@.skip(pos as int),
            ) == Ok::<_, ReadErrorView>((advice_of(inputs), (next - pos) as nat)),
            Err(e) => advice_parsed(bytes@.skip(pos as int)) == Err::<(AdviceContents, nat), _>(e@),
        },
{
    let mut reader = std::io::Cursor::new(&bytes[pos..]);
    match AdviceInputs::read_from(&mut reader) {
        Ok(inputs) => Ok((inputs, pos + reader.position() as usize)),
        Err(DeserializationError::UnexpectedEOF) => Err(ReadError::UnexpectedEof),
        Err(DeserializationError::InvalidValue(m)) => Err(ReadError::InvalidValue(m)),
        Err(DeserializationError::UnknownError(m)) => Err(ReadError::UnknownError(m)),
    }
}

// ---------------------------------------------------------------------------------------------
// The snapshot
// ---------------------------------------------------------------------------------------------

/// All that is needed to run a recorded program again.
pub struct ReplaySnapshot {
    /// The program that was run.
    pub program: Program,
    /// The operand stack that the program started with.
    pub stack_inputs: StackInputs,
    /// The advice that the program started with.
    pub advice_inputs: AdviceInputs,
    /// The limits that the program was run with.
    pub options: RunOptions,
    /// The code that the host supplied during the run.
    pub mast_forests: Vec<Arc<MastForest>>,
    /// The changes that event handlers asked for, one entry for each event, in order.
    pub event_log: Vec<Vec<AdviceMutation>>,
}

/// What a [`ReplaySnapshot`] holds.
pub struct SnapshotView {
    pub program: Seq<u8>,
    pub stack_inputs: Seq<Felt>,
    pub advice_inputs: AdviceContents,
    pub options: RunOptions,
    pub mast_forests: Seq<Seq<u8>>,
    pub event_log: Seq<Seq<MutationView>>,
}

impl View for ReplaySnapshot {
    type V = SnapshotView;

    open spec fn view(&self) -> SnapshotView {
        SnapshotView {
            program: program_bytes(self.program),
            stack_inputs: self.stack_inputs.elements@,
            advice_inputs: advice_of(self.advice_inputs),
            options: self.options,
            mast_forests: self.mast_forests.content(),
            event_log: self.event_log.content(),
        }
    }
}

/// The bytes that every snapshot begins with.
pub open spec fn magic() -> Seq<u8> {
    seq![0x4du8, 0x44u8, 0x4eu8, 0x53u8, 0x4eu8, 0x50u8]
}

/// The version of the format. Other versions are refused: what they hold may differ.
pub const SNAPSHOT_VERSION: u8 = 2;

/// What stands in front of the advice inputs: the program and its stack.
pub type Front = (Program, StackInputs);

/// What stands behind the advice inputs: the limits, the code and the changes.
pub type Back = (RunOptions, (Vec<Arc<MastForest>>, Vec<Vec<AdviceMutation>>));

/// What the part in front of the advice inputs says.
pub type FrontContent = (Seq<u8>, Seq<Felt>);

/// What the part behind the advice inputs says.
pub type BackContent = (RunOptions, (Seq<Seq<u8>>, Seq<Seq<MutationView>>));

/// The bytes in front of those of the advice inputs.
#[verifier::opaque]
pub open spec fn front_encoded(front: FrontContent) -> Seq<u8> {
    Front::encoded(front)
}

/// The bytes behind those of the advice inputs.
#[verifier::opaque]
pub open spec fn back_encoded(back: BackContent) -> Seq<u8> {
    Back::encoded(back)
}

/// Reads what stands in front of the advice inputs.
#[verifier::opaque]
pub open spec fn front_parsed(s: Seq<u8>) -> Result<(FrontContent, Seq<u8>), ReadErrorView> {
    Front::parsed(s)
}

/// Reads what stands behind the advice inputs.
#[verifier::opaque]
pub open spec fn back_parsed(s: Seq<u8>) -> Result<(BackContent, Seq<u8>), ReadErrorView> {
    Back::parsed(s)
}

/// Whether what stands in front of the advice inputs can be read back.
#[verifier::opaque]
pub open spec fn front_valid(front: FrontContent) -> bool {
    Front::valid(front)
}

/// Whether what stands behind the advice inputs can be read back.
#[verifier::opaque]
pub open spec fn back_valid(back: BackContent) -> bool {
    Back::valid(back)
}

impl SnapshotView {
    /// What stands in front of the advice inputs.
    pub open spec fn front(self) -> FrontContent {
        (self.program, self.stack_inputs)
    }

    /// What stands behind the advice inputs.
    pub open spec fn back(self) -> BackContent {
        (self.options, (self.mast_forests, self.event_log))
    }

    /// The bytes of the snapshot, where those of the advice inputs are these.
    pub open spec fn encoded(self, advice: Seq<u8>) -> Seq<u8> {
        magic() + seq![SNAPSHOT_VERSION] + front_encoded(self.front()) + advice + back_encoded(
            self.back(),
        )
    }

    /// Whether the snapshot can be read back: its stack holds sixteen elements of the field, its
    /// limits are accepted, the elements in its changes are elements of the field, and its code,
    /// once written, can be read.
    pub open spec fn readable(self) -> bool {
        front_valid(self.front()) && back_valid(self.back())
    }

    /// Whether the program and the code that the host supplied, once written, can be read.
    pub open spec fn code_is_readable(self) -> bool {
        &&& Program::valid(self.program)
        &&& forall|i: int|
            0 <= i < self.mast_forests.len() ==> Arc::<MastForest>::valid(
                #[trigger] self.mast_forests[i],
            )
    }
}

/// A snapshot can be read back where its code can be: the stack, the limits and the changes are
/// kept, as long as they are what they are meant to be.
pub proof fn readable_where_the_code_is(snapshot: SnapshotView)
    requires
        snapshot.code_is_readable(),
        StackInputs::valid(snapshot.stack_inputs),
        RunOptions::valid(snapshot.options),
        Vec::<Vec<AdviceMutation>>::valid(snapshot.event_log),
        snapshot.mast_forests.len() <= usize::MAX,
    ensures
        snapshot.readable(),
{
    reveal(front_valid);
    reveal(back_valid);
}

/// Whether bytes are the same.
fn same_bytes(a: &Vec<u8>, b: &Vec<u8>) -> (r: bool)
    ensures
        r == (a@ == b@),
{
    if a.len() != b.len() {
        return false;
    }
    let mut i: usize = 0;
    while i < a.len()
        invariant
            i <= a@.len() == b@.len(),
            forall|k: int| 0 <= k < i ==> a@[k] == b@[k],
        decreases a@.len() - i,
    {
        if a[i] != b[i] {
            return false;
        }
        i += 1;
    }
    proof {
        assert(a@ =~= b@);
    }
    true
}

fn program_reads_back(program: &Program) -> (r: bool)
    ensures
        r == Program::valid(program_bytes(*program)),
{
    let bytes = write_program(program);
    proof {
        assert(bytes@.skip(0) =~= bytes@);
        assert(bytes@ + Seq::<u8>::empty() =~= bytes@);
    }
    match read_program(&bytes, 0) {
        Ok((read, next)) => next == bytes.len() && same_bytes(&write_program(&read), &bytes),
        Err(_) => false,
    }
}

fn forest_reads_back(forest: &Arc<MastForest>) -> (r: bool)
    ensures
        r == Arc::<MastForest>::valid(forest_bytes(**forest)),
{
    let bytes = write_forest(&**forest);
    proof {
        assert(bytes@.skip(0) =~= bytes@);
        assert(bytes@ + Seq::<u8>::empty() =~= bytes@);
    }
    match read_forest(&bytes, 0) {
        Ok((read, next)) => next == bytes.len() && same_bytes(&write_forest(&read), &bytes),
        Err(_) => false,
    }
}

/// The snapshot behind the magic bytes and the version.
pub open spec fn body_parsed(s: Seq<u8>) -> Result<SnapshotView, ReadErrorView> {
    match front_parsed(s) {
        Err(e) => Err(e),
        Ok((front, s)) => match advice_parsed(s) {
            Err(e) => Err(e),
            Ok((advice, used)) => match back_parsed(s.skip(used as int)) {
                Err(e) => Err(e),
                Ok((back, _)) => Ok(
                    SnapshotView {
                        program: front.0,
                        stack_inputs: front.1,
                        advice_inputs: advice,
                        options: back.0,
                        mast_forests: back.1.0,
                        event_log: back.1.1,
                    },
                ),
            },
        },
    }
}

/// The snapshot at the front of some bytes, or why there is none. What follows it is ignored.
pub open spec fn snapshot_parsed(s: Seq<u8>) -> Result<SnapshotView, ReadErrorView> {
    if s.len() < 6 {
        Err(ReadErrorView::UnexpectedEof)
    } else if s.take(6) != magic() {
        Err(
            ReadErrorView::InvalidValue("not a Miden debugger replay snapshot (bad magic)"@),
        )
    } else if s.len() < 7 {
        Err(ReadErrorView::UnexpectedEof)
    } else if s[6] != SNAPSHOT_VERSION {
        Err(
            ReadErrorView::InvalidValue(
                "unsupported replay snapshot version "@ + crate::text::decimal(s[6] as nat)
                    + " (expected "@ + crate::text::decimal(SNAPSHOT_VERSION as nat) + ")"@,
            ),
        )
    } else {
        body_parsed(s.skip(7))
    }
}

proof fn front_reads_back(front: FrontContent, rest: Seq<u8>)
    requires
        front_valid(front),
    ensures
        front_parsed(front_encoded(front) + rest) == Ok::<(FrontContent, Seq<u8>), ReadErrorView>(
            (front, rest),
        ),
{
    reveal(front_encoded);
    reveal(front_parsed);
    reveal(front_valid);
    Front::reads_back(front, rest);
}

proof fn back_reads_back(back: BackContent, rest: Seq<u8>)
    requires
        back_valid(back),
    ensures
        back_parsed(back_encoded(back) + rest) == Ok::<(BackContent, Seq<u8>), ReadErrorView>(
            (back, rest),
        ),
{
    reveal(back_encoded);
    reveal(back_parsed);
    reveal(back_valid);
    Back::reads_back(back, rest);
}

/// A snapshot survives being written and read: the program, its inputs, the limits, the code and
/// the changes are the same, whatever order the advice was written in and whatever follows the
/// snapshot. Only what was stored in place of an empty subtree is not kept.
pub proof fn snapshot_reads_back(snapshot: SnapshotView, advice: Seq<u8>, rest: Seq<u8>)
    requires
        snapshot.readable(),
        reads_as_advice(
            advice,
            snapshot.advice_inputs.with_empty_subtrees(empty_roots(255)),
        ),
    ensures
        snapshot_parsed(snapshot.encoded(advice) + rest) == Ok::<SnapshotView, ReadErrorView>(
            SnapshotView {
                advice_inputs: snapshot.advice_inputs.with_empty_subtrees(empty_roots(255)),
                ..snapshot
            },
        ),
        snapshot.advice_inputs.has_empty_subtrees() ==> snapshot_parsed(
            snapshot.encoded(advice) + rest,
        ) == Ok::<SnapshotView, ReadErrorView>(snapshot),
{
    let behind_advice = back_encoded(snapshot.back()) + rest;
    let behind_front = advice + behind_advice;
    let body = front_encoded(snapshot.front()) + behind_front;
    let s = snapshot.encoded(advice) + rest;
    assert(s.take(6) =~= magic());
    assert(s[6] == SNAPSHOT_VERSION);
    assert(s.skip(7) =~= body);
    front_reads_back(snapshot.front(), behind_front);
    assert(behind_front.skip(advice.len() as int) =~= behind_advice);
    back_reads_back(snapshot.back(), rest);
    if snapshot.advice_inputs.has_empty_subtrees() {
        empty_subtrees_stay(snapshot.advice_inputs);
    }
}

/// What is read as a stack and as limits can be used as such.
pub proof fn parsed_can_be_run(s: Seq<u8>)
    ensures
        snapshot_parsed(s) matches Ok(snapshot) ==> StackInputs::valid(snapshot.stack_inputs)
            && snapshot.options.wf(),
{
    if snapshot_parsed(s) is Ok {
        let body = s.skip(7);
        reveal(front_parsed);
        reveal(back_parsed);
        let (_, behind_program) = Program::parsed(body)->Ok_0;
        stack_parsed_is_valid(behind_program);
        let (_, behind_front) = front_parsed(body)->Ok_0;
        let (_, used) = advice_parsed(behind_front)->Ok_0;
        options_parsed_are_accepted(behind_front.skip(used as int));
    }
}

proof fn stack_parsed_is_valid(s: Seq<u8>)
    ensures
        StackInputs::parsed(s) matches Ok((stack, _)) ==> StackInputs::valid(stack),
{
    if s.len() > 0 {
        felts_parsed_are_valid(s.skip(1), s[0] as nat);
    }
}

proof fn felts_parsed_are_valid(s: Seq<u8>, count: nat)
    ensures
        crate::exec::advice::items_parsed::<Felt>(s, count) matches Ok((felts, _)) ==> forall|
            i: int,
        |
            0 <= i < felts.len() ==> Felt::valid(#[trigger] felts[i]),
    decreases count,
{
    if count > 0 {
        match Felt::parsed(s) {
            Ok((first, rest)) => {
                felts_parsed_are_valid(rest, (count - 1) as nat);
                match crate::exec::advice::items_parsed::<Felt>(rest, (count - 1) as nat) {
                    Ok((others, _)) => {
                        assert forall|i: int| 0 <= i < (seq![first] + others).len() implies
                            Felt::valid(#[trigger] (seq![first] + others)[i]) by {
                            if i > 0 {
                                assert((seq![first] + others)[i] == others[i - 1]);
                            }
                        }
                    },
                    Err(_) => {},
                }
            },
            Err(_) => {},
        }
    }
}

proof fn options_parsed_are_accepted(s: Seq<u8>)
    ensures
        RunOptions::parsed(s) matches Ok((options, _)) ==> options.wf(),
{
    match crate::exec::options::OptionFields::parsed(s) {
        Ok((fields, _)) => {
            let options = RunOptions::from_order(fields);
            if options.accepted() is Ok {
                crate::exec::options::accepted_stays(options);
            }
        },
        Err(_) => {},
    }
}

fn read_front(bytes: &Vec<u8>, pos: usize) -> (r: Result<(Front, usize), ReadError>)
    requires
        pos <= bytes@.len(),
    ensures
        match r {
            Ok((front, next)) => {
                &&& next <= bytes@.len()
                &&& front_parsed(bytes@.skip(pos as int)) == Ok::<
                    (FrontContent, Seq<u8>),
                    ReadErrorView,
                >(((program_bytes(front.0), front.1.elements@), bytes@.skip(next as int)))
            },
            Err(e) => front_parsed(bytes@.skip(pos as int)) == Err::<
                (FrontContent, Seq<u8>),
                ReadErrorView,
            >(e@),
        },
{
    proof {
        reveal(front_parsed);
    }
    Front::read(bytes, pos)
}

fn read_back(bytes: &Vec<u8>, pos: usize) -> (r: Result<(Back, usize), ReadError>)
    requires
        pos <= bytes@.len(),
    ensures
        match r {
            Ok((back, next)) => {
                &&& next <= bytes@.len()
                &&& back_parsed(bytes@.skip(pos as int)) == Ok::<
                    (BackContent, Seq<u8>),
                    ReadErrorView,
                >(
                    (
                        (back.0, (back.1.0.content(), back.1.1.content())),
                        bytes@.skip(next as int),
                    ),
                )
            },
            Err(e) => back_parsed(bytes@.skip(pos as int)) == Err::<
                (BackContent, Seq<u8>),
                ReadErrorView,
            >(e@),
        },
{
    proof {
        reveal(back_parsed);
    }
    Back::read(bytes, pos)
}

/// Whether bytes begin with the magic bytes.
fn has_magic(bytes: &Vec<u8>) -> (r: bool)
    requires
        bytes@.len() >= 6,
    ensures
        r == (bytes@.take(6) == magic()),
{
    let r = bytes[0] == 0x4d && bytes[1] == 0x44 && bytes[2] == 0x4e && bytes[3] == 0x53 && bytes[4]
        == 0x4e && bytes[5] == 0x50;
    proof {
        let front = bytes@.take(6);
        if r {
            assert(front =~= magic());
        } else {
            assert(front[0] != magic()[0] || front[1] != magic()[1] || front[2] != magic()[2]
                || front[3] != magic()[3] || front[4] != magic()[4] || front[5] != magic()[5]);
        }
    }
    r
}

impl ReplaySnapshot {
    /// The bytes of the snapshot, where those of the advice inputs are these.
    pub fn to_bytes_with(&self, advice: &Vec<u8>) -> (r: Vec<u8>)
        ensures
            r@ == self@.encoded(advice@),
    {
        let mut out: Vec<u8> = vec![
            0x4du8,
            0x44u8,
            0x4eu8,
            0x53u8,
            0x4eu8,
            0x50u8,
            SNAPSHOT_VERSION,
        ];
        proof {
            assert(out@ =~= magic() + seq![SNAPSHOT_VERSION]);
        }
        self.program.write(&mut out);
        self.stack_inputs.write(&mut out);
        out.extend_from_slice(advice.as_slice());
        self.options.write(&mut out);
        self.mast_forests.write(&mut out);
        self.event_log.write(&mut out);
        proof {
            reveal(front_encoded);
            reveal(back_encoded);
            assert(out@ =~= self@.encoded(advice@));
        }
        out
    }

    /// The bytes of the snapshot. Where its code, once written, can be read, they hold the snapshot,
    /// with the empty subtrees put back into its advice.
    pub fn to_bytes(&self) -> (r: Vec<u8>)
        ensures
            exists|advice: Seq<u8>| #[trigger]
                self@.encoded(advice) == r@ && reads_as_advice(
                    advice,
                    self@.advice_inputs.with_empty_subtrees(empty_roots(255)),
                ),
            self@.readable() ==> snapshot_parsed(r@) == Ok::<SnapshotView, ReadErrorView>(
                SnapshotView {
                    advice_inputs: self@.advice_inputs.with_empty_subtrees(empty_roots(255)),
                    ..self@
                },
            ),
            self@.readable() && self@.advice_inputs.has_empty_subtrees() ==> snapshot_parsed(r@)
                == Ok::<SnapshotView, ReadErrorView>(self@),
    {
        let advice = write_advice(&self.advice_inputs);
        let out = self.to_bytes_with(&advice);
        proof {
            if self@.readable() {
                snapshot_reads_back(self@, advice@, Seq::empty());
                assert(self@.encoded(advice@) + Seq::<u8>::empty() =~= out@);
            }
        }
        out
    }

    /// Tells whether the program and the code that the host supplied, once written, can be read.
    pub fn code_reads_back(&self) -> (r: bool)
        ensures
            r == self@.code_is_readable(),
    {
        if !program_reads_back(&self.program) {
            return false;
        }
        let mut i: usize = 0;
        while i < self.mast_forests.len()
            invariant
                i <= self.mast_forests@.len(),
                self@.mast_forests.len() == self.mast_forests@.len(),
                forall|k: int|
                    0 <= k < i ==> Arc::<MastForest>::valid(#[trigger] self@.mast_forests[k]),
            decreases self.mast_forests@.len() - i,
        {
            proof {
                assert(self@.mast_forests[i as int] == forest_bytes(
                    *self.mast_forests@[i as int],
                ));
            }
            if !forest_reads_back(&self.mast_forests[i]) {
                return false;
            }
            i += 1;
        }
        true
    }

    /// Tells whether the advice, once written and read, is the same: whether its Merkle store holds
    /// the empty subtrees as they are.
    pub fn advice_reads_back(&self) -> (r: bool)
        ensures
            r == self@.advice_inputs.has_empty_subtrees(),
    {
        holds_empty_subtrees(&self.advice_inputs)
    }

    /// The stack holds sixteen elements of the field, and the limits are accepted.
    pub open spec fn wf(&self) -> bool {
        StackInputs::valid(self.stack_inputs.elements@) && self.options.wf()
    }

    /// Reads a snapshot. What follows it is ignored.
    pub fn read_from_bytes(bytes: &Vec<u8>) -> (r: Result<Self, ReadError>)
        ensures
            match r {
                Ok(snapshot) => snapshot.wf() && snapshot_parsed(bytes@) == Ok::<
                    SnapshotView,
                    ReadErrorView,
                >(snapshot@),
                Err(e) => snapshot_parsed(bytes@) == Err::<SnapshotView, ReadErrorView>(e@),
            },
    {
        proof {
            parsed_can_be_run(bytes@);
        }
        if bytes.len() < 6 {
            return Err(ReadError::UnexpectedEof);
        }
        if !has_magic(bytes) {
            return Err(
                ReadError::InvalidValue(
                    "not a Miden debugger replay snapshot (bad magic)".to_owned(),
                ),
            );
        }
        if bytes.len() < 7 {
            return Err(ReadError::UnexpectedEof);
        }
        let version: u8 = bytes[6];
        if version != SNAPSHOT_VERSION {
            let mut m = "unsupported replay snapshot version ".to_owned();
            m.append(crate::text::render_decimal(version as u64).as_str());
            m.append(" (expected ");
            m.append(crate::text::render_decimal(SNAPSHOT_VERSION as u64).as_str());
            m.append(")");
            return Err(ReadError::InvalidValue(m));
        }
        let (front, pos): (Front, usize) = match read_front(bytes, 7) {
            Ok((front, pos)) => (front, pos),
            Err(e) => {
                return Err(e);
            },
        };
        let (advice_inputs, behind): (AdviceInputs, usize) = match read_advice(bytes, pos) {
            Ok((advice_inputs, next)) => (advice_inputs, next),
            Err(e) => {
                return Err(e);
            },
        };
        proof {
            assert(bytes@.skip(pos as int).skip(behind - pos) =~= bytes@.skip(behind as int));
        }
        match read_back(bytes, behind) {
            Ok((back, _)) => {
                let (program, stack_inputs) = front;
                let (options, (mast_forests, event_log)) = back;
                Ok(
                    ReplaySnapshot {
                        program,
                        stack_inputs,
                        advice_inputs,
                        options,
                        mast_forests,
                        event_log,
                    },
                )
            },
            Err(e) => Err(e),
        }
    }

    /// The snapshot in a file with this content; the content is missing where the file could not
    /// be read.
    pub fn from_file_content(content: Result<Vec<u8>, String>) -> (r: Result<
        Self,
        ReplaySnapshotError,
    >)
        ensures
            match content {
                Ok(bytes) => match r {
                    Ok(snapshot) => snapshot.wf() && snapshot_parsed(bytes@) == Ok::<
                        SnapshotView,
                        ReadErrorView,
                    >(snapshot@),
                    Err(ReplaySnapshotError::Deserialization(e)) => snapshot_parsed(bytes@) == Err::<
                        SnapshotView,
                        ReadErrorView,
                    >(e@),
                    Err(ReplaySnapshotError::Io(_)) => false,
                },
                Err(m) => r matches Err(ReplaySnapshotError::Io(reason)) && reason == m,
            },
    {
        match content {
            Err(m) => Err(ReplaySnapshotError::Io(m)),
            Ok(bytes) => match ReplaySnapshot::read_from_bytes(&bytes) {
                Ok(snapshot) => Ok(snapshot),
                Err(e) => Err(ReplaySnapshotError::Deserialization(e)),
            },
        }
    }
}

/// Why a snapshot cannot be read from a file.
#[derive(Debug)]
pub enum ReplaySnapshotError {
    /// The file cannot be read.
    Io(String),
    /// The file holds no snapshot.
    Deserialization(ReadError),
}

impl ReplaySnapshotError {
    /// What the error is printed as.
    pub open spec fn printed(&self) -> Seq<char> {
        match self {
            ReplaySnapshotError::Io(m) => "failed to read replay snapshot file: "@ + m@,
            ReplaySnapshotError::Deserialization(e) => "failed to deserialize replay snapshot: "@
                + e@.printed(),
        }
    }

    /// What the error is printed as.
    pub fn message(&self) -> (r: String)
        ensures
            r@ == self.printed(),
    {
        match self {
            ReplaySnapshotError::Io(m) => crate::text::concat(
                "failed to read replay snapshot file: ",
                m.as_str(),
            ),
            ReplaySnapshotError::Deserialization(e) => crate::text::concat(
                "failed to deserialize replay snapshot: ",
                e.message().as_str(),
            ),
        }
    }
}

// ---------------------------------------------------------------------------------------------
// What holds of all snapshots
// ---------------------------------------------------------------------------------------------

/// A snapshot begins with the letters `MDNSNP` and the number 2; behind them stand the program, its
/// stack, its advice, the limits, the code and the changes, in this order.
pub proof fn the_parts_of_a_snapshot_come_in_order(snapshot: SnapshotView, advice: Seq<u8>)
    ensures
        snapshot.encoded(advice) == seq![0x4du8, 0x44u8, 0x4eu8, 0x53u8, 0x4eu8, 0x50u8, 2u8]
            + snapshot.program + StackInputs::encoded(snapshot.stack_inputs) + advice
            + RunOptions::encoded(snapshot.options) + Vec::<Arc<MastForest>>::encoded(
            snapshot.mast_forests,
        ) + Vec::<Vec<AdviceMutation>>::encoded(snapshot.event_log),
{
    reveal(front_encoded);
    reveal(back_encoded);
    assert(snapshot.encoded(advice) =~= seq![
        0x4du8,
        0x44u8,
        0x4eu8,
        0x53u8,
        0x4eu8,
        0x50u8,
        2u8,
    ] + snapshot.program + StackInputs::encoded(snapshot.stack_inputs) + advice
        + RunOptions::encoded(snapshot.options) + Vec::<Arc<MastForest>>::encoded(
        snapshot.mast_forests,
    ) + Vec::<Vec<AdviceMutation>>::encoded(snapshot.event_log));
}

/// Bytes that do not begin with the letters `MDNSNP`, or go on with another version than 2, hold no
/// snapshot, whatever follows.
pub proof fn other_files_are_refused(s: Seq<u8>)
    ensures
        snapshot_parsed(s) is Ok ==> s.len() >= 7 && s.take(7) == seq![
            0x4du8,
            0x44u8,
            0x4eu8,
            0x53u8,
            0x4eu8,
            0x50u8,
            2u8,
        ],
        s.len() < 6 ==> snapshot_parsed(s) == Err::<SnapshotView, _>(ReadErrorView::UnexpectedEof),
        s.len() >= 6 && s.take(6) != seq![0x4du8, 0x44u8, 0x4eu8, 0x53u8, 0x4eu8, 0x50u8]
            ==> snapshot_parsed(s) matches Err(ReadErrorView::InvalidValue(_)),
        s.len() >= 7 && s.take(6) == seq![0x4du8, 0x44u8, 0x4eu8, 0x53u8, 0x4eu8, 0x50u8] && s[6]
            != 2 ==> snapshot_parsed(s) matches Err(ReadErrorView::InvalidValue(_)),
{
    if s.len() >= 7 && s.take(6) == magic() && s[6] == 2 {
        assert(s.take(7) =~= s.take(6).push(s[6]));
        assert(s.take(7) =~= seq![0x4du8, 0x44u8, 0x4eu8, 0x53u8, 0x4eu8, 0x50u8, 2u8]);
    }
}

/// A snapshot says all that it holds: of the code, every forest, and of the changes, those for every
/// event, in order.
pub proof fn a_snapshot_says_all_that_it_holds(snapshot: ReplaySnapshot, i: int, k: int)
    ensures
        snapshot@.program == program_bytes(snapshot.program),
        snapshot@.stack_inputs == snapshot.stack_inputs.elements@,
        snapshot@.advice_inputs == advice_of(snapshot.advice_inputs),
        snapshot@.options == snapshot.options,
        snapshot@.mast_forests.len() == snapshot.mast_forests@.len(),
        snapshot@.event_log.len() == snapshot.event_log@.len(),
        0 <= i < snapshot.mast_forests@.len() ==> snapshot@.mast_forests[i] == forest_bytes(
            *snapshot.mast_forests@[i],
        ),
        0 <= i < snapshot.event_log@.len() ==> snapshot@.event_log[i].len()
            == snapshot.event_log@[i]@.len(),
        0 <= i < snapshot.event_log@.len() && 0 <= k < snapshot.event_log@[i]@.len()
            ==> snapshot@.event_log[i][k] == snapshot.event_log@[i]@[k].content(),
{
}

/// Putting the empty subtrees into a Merkle store leaves all other nodes as they are, and the rest of
/// the advice.
pub proof fn only_empty_subtrees_are_put_back(
    contents: AdviceContents,
    roots: Seq<Seq<u64>>,
    node: Seq<u64>,
)
    ensures
        ({
            let after = contents.with_empty_subtrees(roots);
            &&& after.stack == contents.stack
            &&& after.map == contents.map
            &&& (forall|i: int| 0 <= i < roots.len() - 1 ==> #[trigger] roots[i] != node) ==> {
                &&& after.nodes.contains_key(node) == contents.nodes.contains_key(node)
                &&& contents.nodes.contains_key(node) ==> after.nodes[node]
                    == contents.nodes[node]
            }
            &&& forall|i: int|
                0 <= i < roots.len() - 1 ==> after.nodes.contains_key(#[trigger] roots[i])
            &&& (forall|i: int, j: int|
                0 <= i < j < roots.len() ==> #[trigger] roots[i] != #[trigger] roots[j])
                ==> after.holds(roots)
        }),
{
    empty_nodes_are_the_roots(roots, node);
    let after = contents.with_empty_subtrees(roots);
    assert forall|i: int| 0 <= i < roots.len() - 1 implies after.nodes.contains_key(
        #[trigger] roots[i],
    ) by {
        empty_nodes_are_the_roots(roots, roots[i]);
    }
    if forall|i: int, j: int|
        0 <= i < j < roots.len() ==> #[trigger] roots[i] != #[trigger] roots[j] {
        assert forall|i: int| 0 <= i < roots.len() - 1 implies {
            &&& after.nodes.contains_key(#[trigger] roots[i])
            &&& after.nodes[roots[i]] == (roots[i + 1], roots[i + 1])
        } by {
            empty_nodes_are_the_roots(roots, roots[i]);
            empty_nodes_have_their_children(roots, i);
        }
    }
}

proof fn empty_nodes_are_the_roots(roots: Seq<Seq<u64>>, node: Seq<u64>)
    ensures
        empty_nodes(roots).contains_key(node) <==> exists|i: int|
            0 <= i < roots.len() - 1 && #[trigger] roots[i] == node,
    decreases roots.len(),
{
    if roots.len() >= 2 {
        let smaller = roots.skip(1);
        empty_nodes_are_the_roots(smaller, node);
        if exists|i: int| 0 <= i < smaller.len() - 1 && #[trigger] smaller[i] == node {
            let i = choose|i: int| 0 <= i < smaller.len() - 1 && #[trigger] smaller[i] == node;
            assert(roots[i + 1] == node);
        }
        if exists|i: int| 0 <= i < roots.len() - 1 && #[trigger] roots[i] == node {
            let i = choose|i: int| 0 <= i < roots.len() - 1 && #[trigger] roots[i] == node;
            if i > 0 {
                assert(smaller[i - 1] == node);
            }
        }
    }
}

proof fn empty_nodes_have_their_children(roots: Seq<Seq<u64>>, i: int)
    requires
        0 <= i < roots.len() - 1,
        forall|i: int, j: int|
            0 <= i < j < roots.len() ==> #[trigger] roots[i] != #[trigger] roots[j],
    ensures
        empty_nodes(roots).contains_key(roots[i]),
        empty_nodes(roots)[roots[i]] == (roots[i + 1], roots[i + 1]),
    decreases roots.len(),
{
    if i > 0 {
        let smaller = roots.skip(1);
        assert forall|i: int, j: int| 0 <= i < j < smaller.len() implies #[trigger] smaller[i]
            != #[trigger] smaller[j] by {
            assert(smaller[i] == roots[i + 1] && smaller[j] == roots[j + 1]);
        }
        empty_nodes_have_their_children(smaller, i - 1);
        assert(roots[0] != roots[i]);
    }
}

} // verus!
