//! The final state of a program that was run.
use smallvec::SmallVec;
use vstd::prelude::*;

use crate::debug::memory::{MemoryReadError, NativePtr, Type, WORD_SIZE};

verus! {

// ---------------------------------------------------------------------------------------------
// The memory of the virtual machine
// ---------------------------------------------------------------------------------------------

/// The processor of the virtual machine.
#[verifier::external_type_specification]
#[verifier::external_body]
pub struct ExFastProcessor(miden_processor::FastProcessor);

/// The memory of a processor: the element at each address of each execution context that holds
/// one.
pub uninterp spec fn memory_of(processor: miden_processor::FastProcessor) -> Map<(u32, u32), u64>;

/// Memory that nothing was written to.
pub open spec fn untouched() -> Map<(u32, u32), u64> {
    Map::empty()
}

/// What a read gives: the element that is there, else zero.
pub open spec fn element_at(memory: Map<(u32, u32), u64>, ctx: u32, addr: u32) -> u64 {
    if memory.contains_key((ctx, addr)) {
        memory[(ctx, addr)]
    } else {
        0
    }
}

/// The four elements of the word that starts at an address.
pub open spec fn word_at(memory: Map<(u32, u32), u64>, ctx: u32, addr: u32) -> Seq<u64> {
    Seq::new(4, |i: int| element_at(memory, ctx, (addr + i) as u32))
}

/// A word of zeros.
pub open spec fn zero_word() -> Seq<u64> {
    seq![0u64, 0u64, 0u64, 0u64]
}

/// Reads an element.
///
/// Trusted: `Memory::read_element` of `miden-processor`, on the memory of the processor. Every
/// address below two to the thirty-second can be read; what was never written is zero. The
/// element is given as its canonical value.
#[verifier::external_body]
fn read_element(processor: &miden_processor::FastProcessor, ctx: u32, addr: u32) -> (r: u64)
    ensures
        r == element_at(memory_of(*processor), ctx, addr),
{
    let addr = miden_processor::Felt::from(addr);
    let element = processor.memory().read_element(ctx.into(), addr);
    element.expect("the address is in bounds").as_canonical_u64()
}

/// Reads a word; none where the address is not that of a word.
///
/// Trusted: `Memory::read_word` of `miden-processor`, on the memory of the processor. It refuses
/// the addresses that are no multiple of four; what was never written is zero. The cycle makes no
/// difference. The elements are given as their canonical values.
#[verifier::external_body]
fn read_word(
    processor: &miden_processor::FastProcessor,
    ctx: u32,
    addr: u32,
    clk: u32,
) -> (r: Option<Vec<u64>>)
    ensures
        match r {
            Some(word) => addr % WORD_SIZE == 0 && word@ == word_at(memory_of(*processor), ctx, addr),
            None => addr % WORD_SIZE != 0,
        },
{
    let addr = miden_processor::Felt::from(addr);
    let word = processor.memory().read_word(ctx.into(), addr, clk.into());
    word.ok().map(|word| word.iter().map(|e| e.as_canonical_u64()).collect())
}

/// The operand stack of a processor, the top first.
pub uninterp spec fn stack_of(processor: miden_processor::FastProcessor) -> Seq<u64>;

/// The operand stack of a processor, the top first.
///
/// Trusted: `ProcessorState::get_stack_state` of `miden-processor`. The elements are given as their
/// canonical values.
#[verifier::external_body]
pub(crate) fn stack_state(processor: &miden_processor::FastProcessor) -> (r: Vec<u64>)
    ensures
        r@ == stack_of(*processor),
{
    processor.state().get_stack_state().iter().map(|e| e.as_canonical_u64()).collect()
}

/// The execution context that a processor is in.
pub uninterp spec fn context_of(processor: miden_processor::FastProcessor) -> u32;

/// The execution context that a processor is in.
///
/// Trusted: `ProcessorState::ctx` of `miden-processor`.
#[verifier::external_body]
pub(crate) fn current_context(processor: &miden_processor::FastProcessor) -> (r: u32)
    ensures
        r == context_of(*processor),
{
    processor.state().ctx().into()
}

/// Whether these are all elements of a context, with their addresses, in the order of the
/// addresses.
pub open spec fn lists(
    listing: Seq<(u32, u64)>,
    memory: Map<(u32, u32), u64>,
    ctx: u32,
) -> bool {
    &&& forall|i: int, j: int|
        0 <= i < j < listing.len() ==> (#[trigger] listing[i]).0 < (#[trigger] listing[j]).0
    &&& forall|i: int|
        0 <= i < listing.len() ==> {
            &&& memory.contains_key((ctx, (#[trigger] listing[i]).0))
            &&& memory[(ctx, listing[i].0)] == listing[i].1
        }
    &&& forall|addr: u32| #[trigger]
        memory.contains_key((ctx, addr)) ==> exists|i: int|
            0 <= i < listing.len() && (#[trigger] listing[i]).0 == addr
}

/// All elements of the context that a processor is in, with their addresses.
///
/// Trusted: `ProcessorState::get_mem_state` of `miden-processor`, which lists the words that were
/// written in the order of their addresses, element by element. The elements are given as their
/// canonical values.
#[verifier::external_body]
pub(crate) fn memory_listing(processor: &miden_processor::FastProcessor) -> (r: Vec<(u32, u64)>)
    ensures
        lists(r@, memory_of(*processor), context_of(*processor)),
{
    let state = processor.state();
    let memory = state.get_mem_state(state.ctx());
    memory.iter().map(|(addr, e)| (u32::from(*addr), e.as_canonical_u64())).collect()
}

/// A processor that has not run anything.
///
/// Trusted: `FastProcessor::new` of `miden-processor`, without stack inputs. Its memory is empty.
#[verifier::external_body]
pub(crate) fn idle_processor() -> (r: miden_processor::FastProcessor)
    ensures
        memory_of(r) == untouched(),
{
    miden_processor::FastProcessor::new(miden_processor::StackInputs::default())
}

// ---------------------------------------------------------------------------------------------
// Outputs
// ---------------------------------------------------------------------------------------------

/// How many elements of the operand stack a program takes in and gives out.
pub const STACK_DEPTH: usize = 16;

/// The operand stack that a program leaves behind, the top first.
#[derive(Debug)]
pub struct StackOutputs {
    pub elements: Vec<u64>,
}

/// The first sixteen of these elements, filled up with zeros.
pub open spec fn top_of_stack(stack: Seq<u64>) -> Seq<u64> {
    Seq::new(
        STACK_DEPTH as nat,
        |i: int|
            if i < stack.len() {
                stack[i]
            } else {
                0u64
            },
    )
}

impl StackOutputs {
    pub open spec fn wf(&self) -> bool {
        self.elements@.len() == STACK_DEPTH
    }

    /// The first sixteen of these elements, filled up with zeros.
    pub fn top_of(stack: &Vec<u64>) -> (r: Self)
        ensures
            r.wf(),
            r.elements@ == top_of_stack(stack@),
    {
        let mut elements: Vec<u64> = Vec::new();
        let mut i: usize = 0;
        while i < STACK_DEPTH
            invariant
                i <= STACK_DEPTH,
                elements@ == top_of_stack(stack@).take(i as int),
            decreases STACK_DEPTH - i,
        {
            if i < stack.len() {
                elements.push(stack[i]);
            } else {
                elements.push(0);
            }
            i += 1;
        }
        StackOutputs { elements }
    }
}

// ---------------------------------------------------------------------------------------------
// The trace
// ---------------------------------------------------------------------------------------------

/// The final state of a program that was run: what it left on the operand stack, and its memory.
#[derive(Debug)]
pub struct ExecutionTrace {
    pub root_context: u32,
    pub last_cycle: u32,
    pub processor: miden_processor::FastProcessor,
    pub outputs: StackOutputs,
}

/// A value in memory, as the elements that make it up: a small value by its elements, a larger one
/// by the words it fills, each with its last element first.
#[derive(Debug)]
pub enum Cells {
    Felts(Vec<u64>),
    Words(Vec<Vec<u64>>),
}

/// The addresses of the elements of a value all exist.
pub open spec fn addresses_exist(addr: u32, count: nat) -> bool {
    forall|i: nat| i < count ==> addr + #[trigger] (i as u32) <= u32::MAX
}

// ---------------------------------------------------------------------------------------------
// Words that were read
// ---------------------------------------------------------------------------------------------

/// A list of words. Two of them, which most values fit into, take no allocation.
///
/// Trusted: `SmallVec` of `smallvec`, which is seen through the functions below only.
#[verifier::external_body]
pub struct WordList {
    words: SmallVec<[[u64; 4]; 2]>,
}

/// The words in a list.
pub uninterp spec fn words_in(list: WordList) -> Seq<Seq<u64>>;

/// A list without words.
///
/// Trusted: `SmallVec::new` of `smallvec`.
#[verifier::external_body]
fn no_words() -> (r: WordList)
    ensures
        words_in(r).len() == 0,
{
    WordList { words: SmallVec::new() }
}

/// Appends a word.
///
/// Trusted: `SmallVec::push` of `smallvec`.
#[verifier::external_body]
fn add_word(list: &mut WordList, word: [u64; 4])
    ensures
        words_in(*final(list)) == words_in(*old(list)).push(word@),
{
    list.words.push(word);
}

/// All words of a list, in order.
///
/// Trusted: `SmallVec::into_iter` of `smallvec`.
#[verifier::external_body]
fn all_words(list: WordList) -> (r: Vec<Vec<u64>>)
    ensures
        r@.map_values(|word: Vec<u64>| word@) == words_in(list),
{
    list.words.into_iter().map(|word| word.to_vec()).collect()
}

impl ExecutionTrace {
    pub open spec fn wf(&self) -> bool {
        self.outputs.wf()
    }

    /// The memory that the program left behind.
    pub open spec fn memory(&self) -> Map<(u32, u32), u64> {
        memory_of(self.processor)
    }

    /// The word at an address; zeros where the address is not that of a word.
    pub open spec fn word(&self, ctx: u32, addr: u32) -> Seq<u64> {
        if addr % WORD_SIZE == 0 {
            word_at(self.memory(), ctx, addr)
        } else {
            zero_word()
        }
    }

    /// The elements from an address on.
    pub open spec fn elements(&self, ctx: u32, addr: u32, count: nat) -> Seq<u64> {
        Seq::new(count, |i: int| element_at(self.memory(), ctx, (addr + (i as u32)) as u32))
    }

    /// Whether nothing was run.
    pub open spec fn is_blank(&self) -> bool {
        &&& self.wf()
        &&& self.root_context == 0
        &&& self.last_cycle == 0
        &&& self.memory() == untouched()
        &&& self.outputs.elements@ == top_of_stack(Seq::empty())
    }

    /// A trace with no memory and no outputs.
    pub fn empty() -> (r: Self)
        ensures
            r.is_blank(),
    {
        ExecutionTrace {
            root_context: 0,
            last_cycle: 0,
            processor: idle_processor(),
            outputs: StackOutputs::top_of(&Vec::new()),
        }
    }

    /// The elements that make up a result of `size` elements, the last of them first; none where
    /// the outputs do not hold that many.
    pub fn parse_result(&self, size: usize) -> (r: Option<Vec<u64>>)
        requires
            self.wf(),
        ensures
            match r {
                Some(felts) => size <= STACK_DEPTH && felts@ == self.outputs.elements@.take(
                    size as int,
                ).reverse(),
                None => size > STACK_DEPTH,
            },
    {
        if size > STACK_DEPTH {
            return None;
        }
        let mut felts: Vec<u64> = Vec::new();
        let mut i: usize = size;
        while i > 0
            invariant
                self.wf(),
                i <= size <= STACK_DEPTH,
                felts@ == self.outputs.elements@.take(size as int).reverse().take(size - i),
            decreases i,
        {
            i -= 1;
            felts.push(self.outputs.elements[i]);
        }
        proof {
            assert(felts@ =~= self.outputs.elements@.take(size as int).reverse());
        }
        Some(felts)
    }

    /// What the program left on the operand stack.
    pub fn into_outputs(self) -> (r: StackOutputs)
        ensures
            r == self.outputs,
    {
        self.outputs
    }

    /// What the program left on the operand stack.
    pub fn outputs(&self) -> (r: &StackOutputs)
        ensures
            *r == self.outputs,
    {
        &self.outputs
    }

    /// The word at an address of the root context; zeros where the address is not that of a word.
    pub fn read_memory_word(&self, addr: u32) -> (r: Option<Vec<u64>>)
        ensures
            r is Some,
            r->0@ == self.word(self.root_context, addr),
    {
        self.read_memory_word_in_context(addr, self.root_context, self.last_cycle)
    }

    /// The word at an address of the context `ctx`; zeros where the address is not that of a word.
    pub fn read_memory_word_in_context(&self, addr: u32, ctx: u32, clk: u32) -> (r: Option<
        Vec<u64>,
    >)
        ensures
            r is Some,
            r->0@ == self.word(ctx, addr),
    {
        match read_word(&self.processor, ctx, addr, clk) {
            Some(word) => Some(word),
            None => {
                let zero: Vec<u64> = vec![0u64, 0u64, 0u64, 0u64];
                assert(zero@ =~= zero_word());
                Some(zero)
            },
        }
    }

    /// The element at an address of the root context.
    pub fn read_memory_element(&self, addr: u32) -> (r: Option<u64>)
        ensures
            r == Some(element_at(self.memory(), self.root_context, addr)),
    {
        Some(read_element(&self.processor, self.root_context, addr))
    }

    /// The element at an address of the context `ctx`.
    pub fn read_memory_element_in_context(&self, addr: u32, ctx: u32, clk: u32) -> (r: Option<u64>)
        ensures
            r == Some(element_at(self.memory(), ctx, addr)),
    {
        Some(read_element(&self.processor, ctx, addr))
    }

    /// As many bytes from `addr` on, in the context `ctx`, as a value of type `ty` takes up. The
    /// pointer must point to an element, and the addresses must not run past the end of memory.
    pub fn read_bytes_for_type(&self, addr: NativePtr, ty: &Type, ctx: u32, clk: u32) -> (r: Result<
        Vec<u8>,
        MemoryReadError,
    >)
        ensures
            match r {
                Ok(bytes) => {
                    &&& addr.element_aligned()
                    &&& addresses_exist(addr.addr, ty.felts())
                    &&& bytes@ == crate::debug::memory::leading_bytes(
                        self.elements(ctx, addr.addr, ty.felts()),
                        ty.size(),
                    )
                    &&& bytes@.len() == ty.size()
                },
                Err(MemoryReadError::UnalignedRead) => !addr.element_aligned(),
                Err(MemoryReadError::OutOfBounds) => addr.element_aligned() && !addresses_exist(
                    addr.addr,
                    ty.felts(),
                ),
            },
    {
        if !addr.is_element_aligned() {
            return Err(MemoryReadError::UnalignedRead);
        }
        let count: usize = ty.size_in_felts();
        let mut elements: Vec<u64> = Vec::new();
        let mut i: usize = 0;
        while i < count
            invariant
                i <= count == ty.felts(),
                addr.element_aligned(),
                addresses_exist(addr.addr, i as nat),
                elements@ == self.elements(ctx, addr.addr, i as nat),
            decreases count - i,
        {
            let step: u32 = #[verifier::truncate]
            (i as u32);
            match addr.addr.checked_add(step) {
                Some(at) => {
                    elements.push(read_element(&self.processor, ctx, at));
                },
                None => {
                    proof {
                        let n = i as nat;
                        assert(addr.addr + (n as u32) > u32::MAX);
                    }
                    return Err(MemoryReadError::OutOfBounds);
                },
            }
            i += 1;
            proof {
                assert(elements@ =~= self.elements(ctx, addr.addr, i as nat));
            }
        }
        proof {
            crate::debug::memory::leading_bytes_len(elements@, ty.size());
        }
        Ok(crate::debug::memory::bytes_of_elements(&elements, ty.size_in_bytes()))
    }

    /// The elements of a value of `size` elements at the address `addr` of Rust's address space,
    /// in the root context.
    pub fn read_from_rust_memory(&self, addr: u32, size: usize) -> (r: Cells)
        requires
            addr % 4 == 0,
            size > 0,
            addr / 4 + 4 * ((size + 3) / 4) - 4 <= u32::MAX,
        ensures
            self.reads(addr / 4, self.root_context, size as nat, r),
    {
        self.read_from_rust_memory_in_context(addr, self.root_context, self.last_cycle, size)
    }

    /// Whether these are the elements of a value of `size` elements: up to three elements one by
    /// one, more of them by the words they fill, each with its last element first.
    pub open spec fn reads(&self, addr: u32, ctx: u32, size: nat, cells: Cells) -> bool {
        match cells {
            Cells::Felts(felts) => size < 4 && felts@ == self.elements(ctx, addr, size),
            Cells::Words(words) => {
                &&& size >= 4
                &&& words@.len() == (size + 3) / 4
                &&& forall|i: int|
                    0 <= i < words@.len() ==> (#[trigger] words@[i])@ == self.word(
                        ctx,
                        (addr + 4 * i) as u32,
                    ).reverse()
            },
        }
    }

    /// The elements of a value of `size` elements at the address `addr` of Rust's address space,
    /// in the context `ctx`.
    pub fn read_from_rust_memory_in_context(&self, addr: u32, ctx: u32, clk: u32, size: usize) -> (r:
        Cells)
        requires
            addr % 4 == 0,
            size > 0,
            addr / 4 + 4 * ((size + 3) / 4) - 4 <= u32::MAX,
        ensures
            self.reads(addr / 4, ctx, size as nat, r),
    {
        let ptr = NativePtr::from_ptr(addr);
        if size < 4 {
            let mut felts: Vec<u64> = Vec::new();
            let mut i: usize = 0;
            while i < size
                invariant
                    i <= size < 4,
                    ptr.addr == addr / 4,
                    felts@ == self.elements(ctx, ptr.addr, i as nat),
                decreases size - i,
            {
                felts.push(read_element(&self.processor, ctx, ptr.addr + i as u32));
                i += 1;
                proof {
                    assert(felts@ =~= self.elements(ctx, ptr.addr, i as nat));
                }
            }
            return Cells::Felts(felts);
        }
        let count: usize = if size % 4 == 0 {
            size / 4
        } else {
            size / 4 + 1
        };
        let mut words = no_words();
        let mut i: usize = 0;
        while i < count
            invariant
                i <= count == (size + 3) / 4,
                ptr.addr == addr / 4,
                addr / 4 + 4 * ((size + 3) / 4) - 4 <= u32::MAX,
                words_in(words).len() == i,
                forall|j: int|
                    0 <= j < i ==> (#[trigger] words_in(words)[j]) == self.word(
                        ctx,
                        (ptr.addr + 4 * j) as u32,
                    ).reverse(),
            decreases count - i,
        {
            let at: u32 = ptr.addr + 4 * (i as u32);
            let word = match self.read_memory_word_in_context(at, ctx, clk) {
                Some(word) => word,
                None => Vec::new(),
            };
            let last: [u64; 4] = [word[3], word[2], word[1], word[0]];
            proof {
                assert(last@ =~= word@.reverse());
            }
            add_word(&mut words, last);
            i += 1;
        }
        let all = all_words(words);
        proof {
            assert(all@.len() == words_in(words).len());
            assert forall|j: int| 0 <= j < all@.len() implies (#[trigger] all@[j])@ == self.word(
                ctx,
                (addr / 4 + 4 * j) as u32,
            ).reverse() by {
                assert(all@[j]@ == words_in(words)[j]);
            }
        }
        Cells::Words(all)
    }
}

// ---------------------------------------------------------------------------------------------
// What holds of all memory
// ---------------------------------------------------------------------------------------------

/// A program leaves sixteen elements: those on top of its stack, in order, and zeros where the stack
/// has no more.
pub proof fn sixteen_elements_are_left(stack: Seq<u64>, i: int)
    requires
        0 <= i < 16,
    ensures
        top_of_stack(stack).len() == 16,
        i < stack.len() ==> top_of_stack(stack)[i] == stack[i],
        i >= stack.len() ==> top_of_stack(stack)[i] == 0,
        stack.len() == 16 ==> top_of_stack(stack) == stack,
{
    if stack.len() == 16 {
        assert(top_of_stack(stack) =~= stack);
    }
}

/// The addresses of a value exist where that of its last element does.
pub proof fn the_last_address_counts(addr: u32, count: nat)
    requires
        count <= 0x1_0000_0000,
    ensures
        addresses_exist(addr, count) <==> count == 0 || addr + count - 1 < 0x1_0000_0000,
{
    if count > 0 {
        let last = (count - 1) as nat;
        assert((last as u32) == last);
        if addr + last <= u32::MAX {
            assert forall|i: nat| i < count implies addr + #[trigger] (i as u32) <= u32::MAX by {
                assert((i as u32) == i);
            }
        }
    }
}

/// The elements from an address on are those at that address and the following ones; what was never
/// written is zero, and every context has elements of its own.
pub proof fn elements_follow_each_other(
    trace: ExecutionTrace,
    ctx: u32,
    addr: u32,
    count: nat,
    i: int,
)
    requires
        0 <= i < count,
        addr + count <= 0x1_0000_0000,
    ensures
        ({
            let at = (ctx, (addr + i) as u32);
            let element = trace.elements(ctx, addr, count)[i];
            &&& trace.elements(ctx, addr, count).len() == count
            &&& trace.memory().contains_key(at) ==> element == trace.memory()[at]
            &&& !trace.memory().contains_key(at) ==> element == 0
        }),
{
    assert((i as u32) == i);
}

/// The word at an address that is a multiple of four holds the four elements from there on; at any
/// other address there is no word, and zeros are given for it.
pub proof fn a_word_is_four_elements(trace: ExecutionTrace, ctx: u32, addr: u32)
    ensures
        addr % 4 == 0 ==> trace.word(ctx, addr) == trace.elements(ctx, addr, 4),
        addr % 4 != 0 ==> trace.word(ctx, addr) == seq![0u64, 0u64, 0u64, 0u64],
{
    if addr % 4 == 0 {
        assert forall|i: int| 0 <= i < 4 implies trace.word(ctx, addr)[i] == trace.elements(
            ctx,
            addr,
            4,
        )[i] by {
            assert((i as u32) == i);
        }
        assert(trace.word(ctx, addr) =~= trace.elements(ctx, addr, 4));
    }
}

/// A value is read element by element: those of a small one stand in their order; of a larger one
/// that starts with a word, each word holds its four elements, the last one first.
pub proof fn a_value_is_read_element_by_element(
    trace: ExecutionTrace,
    addr: u32,
    ctx: u32,
    size: nat,
    cells: Cells,
    k: int,
)
    requires
        trace.reads(addr, ctx, size, cells),
        0 <= k < size,
        addr % 4 == 0,
        addr + size + 3 <= 0x1_0000_0000,
    ensures
        ({
            let element = element_at(trace.memory(), ctx, (addr + k) as u32);
            match cells {
                Cells::Felts(felts) => size < 4 && felts@.len() == size && felts@[k] == element,
                Cells::Words(words) => {
                    &&& size >= 4
                    &&& 4 * words@.len() >= size
                    &&& 4 * words@.len() < size + 4
                    &&& words@[k / 4]@.len() == 4
                    &&& words@[k / 4]@[3 - k % 4] == element
                },
            }
        }),
{
    match cells {
        Cells::Felts(felts) => {
            assert((k as u32) == k);
        },
        Cells::Words(words) => {
            let q = k / 4;
            let at = (addr + 4 * q) as u32;
            assert(at == addr + 4 * q);
            assert(words@[q]@ == trace.word(ctx, at).reverse());
            assert(at + k % 4 == addr + k);
        },
    }
}

/// There is one list of the elements of a context: what is listed, and in what order, rests on the
/// memory alone.
pub proof fn there_is_one_listing(
    a: Seq<(u32, u64)>,
    b: Seq<(u32, u64)>,
    memory: Map<(u32, u32), u64>,
    ctx: u32,
)
    requires
        lists(a, memory, ctx),
        lists(b, memory, ctx),
    ensures
        a == b,
    decreases a.len(),
{
    let memory_without = |addr: u32| memory.remove((ctx, addr));
    if a.len() == 0 {
        if b.len() > 0 {
            assert(memory.contains_key((ctx, b[0].0)));
            let i = choose|i: int| 0 <= i < a.len() && (#[trigger] a[i]).0 == b[0].0;
            assert(0 <= i < a.len());
        }
        assert(a =~= b);
    } else {
        assert(memory.contains_key((ctx, a.last().0))) by {
            assert(a[a.len() - 1] == a.last());
        }
        let i = choose|i: int| 0 <= i < b.len() && (#[trigger] b[i]).0 == a.last().0;
        assert(0 <= i < b.len() && b[i].0 == a.last().0);
        assert(b[b.len() - 1] == b.last());
        assert(memory.contains_key((ctx, b.last().0)));
        let j = choose|j: int| 0 <= j < a.len() && (#[trigger] a[j]).0 == b.last().0;
        assert(0 <= j < a.len() && a[j].0 == b.last().0);
        assert(i == b.len() - 1 && j == a.len() - 1) by {
            if i < b.len() - 1 {
                assert(b[i].0 < b[b.len() - 1].0);
                if j < a.len() - 1 {
                    assert(a[j].0 < a[a.len() - 1].0);
                }
            }
            if j < a.len() - 1 {
                assert(a[j].0 < a[a.len() - 1].0);
            }
        }
        let less = memory_without(a.last().0);
        assert(lists(a.drop_last(), less, ctx)) by {
            listing_without_its_last(a, memory, ctx);
        }
        assert(lists(b.drop_last(), less, ctx)) by {
            listing_without_its_last(b, memory, ctx);
        }
        there_is_one_listing(a.drop_last(), b.drop_last(), less, ctx);
        assert(a =~= a.drop_last().push(a.last()));
        assert(b =~= b.drop_last().push(b.last()));
    }
}

proof fn listing_without_its_last(a: Seq<(u32, u64)>, memory: Map<(u32, u32), u64>, ctx: u32)
    requires
        a.len() > 0,
        lists(a, memory, ctx),
    ensures
        lists(a.drop_last(), memory.remove((ctx, a.last().0)), ctx),
{
    let n = a.len() - 1;
    let rest = a.drop_last();
    let less = memory.remove((ctx, a.last().0));
    assert(a[n] == a.last());
    assert forall|i: int| 0 <= i < rest.len() implies {
        &&& less.contains_key((ctx, (#[trigger] rest[i]).0))
        &&& less[(ctx, rest[i].0)] == rest[i].1
    } by {
        assert(rest[i] == a[i]);
        assert(a[i].0 < a[n].0);
        assert(memory.contains_key((ctx, a[i].0)));
    }
    assert forall|addr: u32| #[trigger] less.contains_key((ctx, addr)) implies exists|i: int|
        0 <= i < rest.len() && (#[trigger] rest[i]).0 == addr by {
        assert(memory.contains_key((ctx, addr)));
        let i = choose|i: int| 0 <= i < a.len() && (#[trigger] a[i]).0 == addr;
        assert(0 <= i < a.len() && a[i].0 == addr);
        assert(rest[i].0 == addr);
    }
    assert forall|i: int, j: int| 0 <= i < j < rest.len() implies (#[trigger] rest[i]).0 < (
    #[trigger] rest[j]).0 by {
        assert(a[i].0 < a[j].0);
    }
}

/// What was never written is zero, and the elements of a word stand one behind the other.
pub proof fn what_was_never_written_is_zero(memory: Map<(u32, u32), u64>, ctx: u32, addr: u32, i: int)
    requires
        0 <= i < 4,
        addr + 3 <= u32::MAX,
    ensures
        element_at(untouched(), ctx, addr) == 0,
        word_at(memory, ctx, addr).len() == 4,
        word_at(memory, ctx, addr)[i] == element_at(memory, ctx, (addr + i) as u32),
        word_at(untouched(), ctx, addr) == zero_word(),
{
    assert(word_at(untouched(), ctx, addr) =~= zero_word());
}

} // verus!
