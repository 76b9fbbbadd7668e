//! The limits a program is run with, and the values it starts from.
use vstd::prelude::*;
use vstd::string::*;

use crate::exec::advice::{Felt, Record};
use crate::exec::codec::{ReadError, ReadErrorView};
use crate::exec::trace::STACK_DEPTH;

verus! {

// ---------------------------------------------------------------------------------------------
// Execution options
// ---------------------------------------------------------------------------------------------

/// The limits a program is run with.
#[derive(Debug, Clone, Copy, PartialEq, Eq, Structural)]
pub struct RunOptions {
    pub max_cycles: u32,
    pub expected_cycles: u32,
    pub core_trace_fragment_size: usize,
    pub enable_tracing: bool,
    pub enable_debugging: bool,
    pub max_adv_map_value_size: usize,
    pub max_adv_map_elements: usize,
    pub max_hash_len_bytes: usize,
    pub max_num_continuations: usize,
    pub max_stack_depth: usize,
}

/// The most cycles a program may take.
pub const MAX_CYCLES: u32 = 0x2000_0000;

/// The fewest cycles a program can be limited to.
pub const MIN_CYCLES: u32 = 64;

/// The largest power of two of thirty-two bits.
pub const LARGEST_POWER: u32 = 0x8000_0000;

/// The least power of two that is a multiple of `power` and not below `n`.
pub open spec fn power_of_two_from(power: nat, n: nat) -> nat
    decreases
        if power < n {
            n - power
        } else {
            0
        },
{
    if power >= n || power == 0 {
        power
    } else {
        power_of_two_from(2 * power, n)
    }
}

/// The number of cycles that a program is expected to take, rounded up to a power of two; or why
/// these limits are refused.
pub open spec fn rounded_cycles(max_cycles: u32, expected: u32, fragment_size: usize) -> Result<
    u32,
    Seq<char>,
> {
    let power = power_of_two_from(1, expected as nat);
    let rounded = if power < MIN_CYCLES {
        MIN_CYCLES as nat
    } else {
        power
    };
    if max_cycles > MAX_CYCLES {
        Err(
            "maximum number of cycles "@ + crate::text::decimal(max_cycles as nat)
                + " must be less than "@ + crate::text::decimal(MAX_CYCLES as nat),
        )
    } else if max_cycles < MIN_CYCLES {
        Err(
            "maximum number of cycles "@ + crate::text::decimal(max_cycles as nat)
                + " must be greater than "@ + crate::text::decimal(MIN_CYCLES as nat),
        )
    } else if max_cycles < rounded {
        Err(
            "expected number of cycles "@ + crate::text::decimal(rounded)
                + " must be smaller than the maximum number of cycles "@ + crate::text::decimal(
                max_cycles as nat,
            ),
        )
    } else if fragment_size == 0 {
        Err("core trace fragment size must be greater than 0"@)
    } else {
        Ok(rounded as u32)
    }
}

/// Rounds up the number of cycles that a program is expected to take.
///
/// Trusted: `ExecutionOptions::new` of `miden-processor`, and its `expected_cycles`. It refuses a
/// limit above two to the twenty-ninth or below sixty-four, an expectation that is above the limit
/// once it is rounded up to a power of two of at least sixty-four, and a fragment size of zero, in
/// this order. Rounding up overflows above two to the thirty-first.
#[verifier::external_body]
fn round_cycles(max_cycles: u32, expected: u32, fragment_size: usize) -> (r: Result<u32, String>)
    requires
        expected <= LARGEST_POWER,
    ensures
        match r {
            Ok(n) => rounded_cycles(max_cycles, expected, fragment_size) == Ok::<_, Seq<char>>(n),
            Err(m) => rounded_cycles(max_cycles, expected, fragment_size) == Err::<u32, _>(m@),
        },
{
    let options = miden_processor::ExecutionOptions::new(
        Some(max_cycles),
        expected,
        fragment_size,
        false,
        false,
    );
    options.map(|o| o.expected_cycles()).map_err(|e| e.to_string())
}

/// Why a limit on the operand stack is refused; none where it is not.
pub open spec fn depth_refusal(depth: usize) -> Option<Seq<char>> {
    if depth < STACK_DEPTH {
        Some(
            "maximum stack depth "@ + crate::text::decimal(depth as nat) + " must be at least "@
                + crate::text::decimal(STACK_DEPTH as nat),
        )
    } else {
        None
    }
}

/// Tests a limit on the operand stack.
///
/// Trusted: `ExecutionOptions::with_max_stack_depth` of `miden-processor`. It refuses a limit
/// below sixteen.
#[verifier::external_body]
fn refuse_depth(depth: usize) -> (r: Option<String>)
    ensures
        match r {
            Some(m) => depth_refusal(depth) == Some(m@),
            None => depth_refusal(depth) is None,
        },
{
    let options = miden_processor::ExecutionOptions::default();
    options.with_max_stack_depth(depth).err().map(|e| e.to_string())
}

impl RunOptions {
    /// The limits with the expected number of cycles rounded up, or why they are refused. An
    /// expectation above two to the thirty-first counts as that number, which no limit admits.
    pub open spec fn accepted(self) -> Result<RunOptions, Seq<char>> {
        let expected = if self.expected_cycles > LARGEST_POWER {
            LARGEST_POWER
        } else {
            self.expected_cycles
        };
        match rounded_cycles(self.max_cycles, expected, self.core_trace_fragment_size) {
            Err(m) => Err(m),
            Ok(n) => match depth_refusal(self.max_stack_depth) {
                Some(m) => Err(m),
                None => Ok(RunOptions { expected_cycles: n, ..self }),
            },
        }
    }

    /// Limits that are accepted as they are.
    pub open spec fn wf(self) -> bool {
        self.accepted() == Ok::<RunOptions, Seq<char>>(self)
    }

    /// Tests the limits, and rounds up the expected number of cycles.
    pub fn checked(self) -> (r: Result<RunOptions, String>)
        ensures
            match r {
                Ok(options) => self.accepted() == Ok::<_, Seq<char>>(options) && options.wf(),
                Err(m) => self.accepted() == Err::<RunOptions, _>(m@),
            },
    {
        let expected: u32 = if self.expected_cycles > LARGEST_POWER {
            LARGEST_POWER
        } else {
            self.expected_cycles
        };
        let rounded: u32 = match round_cycles(
            self.max_cycles,
            expected,
            self.core_trace_fragment_size,
        ) {
            Ok(n) => n,
            Err(m) => {
                return Err(m);
            },
        };
        match refuse_depth(self.max_stack_depth) {
            Some(m) => Err(m),
            None => {
                proof {
                    accepted_stays(self);
                }
                Ok(RunOptions { expected_cycles: rounded, ..self })
            },
        }
    }
}

/// A power of two found from `power` is found again from any power on the way.
proof fn power_found_again(power: nat, n: nat)
    requires
        power > 0,
    ensures
        power_of_two_from(power, power_of_two_from(power, n)) == power_of_two_from(power, n),
        power_of_two_from(power, n) >= power,
        power_of_two_from(power, n) >= n,
    decreases
        if power < n {
            n - power
        } else {
            0
        },
{
    if power < n {
        power_found_again(2 * power, n);
    }
}

/// Limits that were accepted are accepted as they are.
pub proof fn accepted_stays(options: RunOptions)
    requires
        options.accepted() is Ok,
    ensures
        options.accepted()->Ok_0.wf(),
{
    let expected: u32 = if options.expected_cycles > LARGEST_POWER {
        LARGEST_POWER
    } else {
        options.expected_cycles
    };
    power_found_again(1, expected as nat);
    let power = power_of_two_from(1, expected as nat);
    if power < MIN_CYCLES {
        assert(power_of_two_from(1, 64) == 64) by {
            reveal_with_fuel(power_of_two_from, 8);
        }
    }
}

/// The values in the order in which they are written down.
pub type OptionFields = (
    (u32, u32),
    (usize, (bool, (bool, (usize, (usize, (usize, (usize, usize))))))),
);

impl RunOptions {
    /// The values in the order in which they are written down.
    pub open spec fn in_order(self) -> OptionFields {
        (
            (self.max_cycles, self.expected_cycles),
            (
                self.core_trace_fragment_size,
                (
                    self.enable_tracing,
                    (
                        self.enable_debugging,
                        (
                            self.max_adv_map_value_size,
                            (
                                self.max_adv_map_elements,
                                (
                                    self.max_hash_len_bytes,
                                    (self.max_num_continuations, self.max_stack_depth),
                                ),
                            ),
                        ),
                    ),
                ),
            ),
        )
    }

    /// The limits with these values.
    pub open spec fn from_order(f: OptionFields) -> RunOptions {
        RunOptions {
            max_cycles: f.0.0,
            expected_cycles: f.0.1,
            core_trace_fragment_size: f.1.0,
            enable_tracing: f.1.1.0,
            enable_debugging: f.1.1.1.0,
            max_adv_map_value_size: f.1.1.1.1.0,
            max_adv_map_elements: f.1.1.1.1.1.0,
            max_hash_len_bytes: f.1.1.1.1.1.1.0,
            max_num_continuations: f.1.1.1.1.1.1.1.0,
            max_stack_depth: f.1.1.1.1.1.1.1.1,
        }
    }
}

/// Limits are written as their values in order, and are tested when they are read.
impl Record for RunOptions {
    type Content = RunOptions;

    open spec fn content(&self) -> RunOptions {
        *self
    }

    open spec fn valid(content: RunOptions) -> bool {
        content.wf()
    }

    open spec fn encoded(content: RunOptions) -> Seq<u8> {
        OptionFields::encoded(content.in_order())
    }

    open spec fn parsed(s: Seq<u8>) -> Result<(RunOptions, Seq<u8>), ReadErrorView> {
        match OptionFields::parsed(s) {
            Err(e) => Err(e),
            Ok((fields, rest)) => match RunOptions::from_order(fields).accepted() {
                Ok(options) => Ok((options, rest)),
                Err(m) => Err(
                    ReadErrorView::InvalidValue("invalid execution options: "@ + m),
                ),
            },
        }
    }

    proof fn reads_back(content: RunOptions, rest: Seq<u8>) {
        OptionFields::reads_back(content.in_order(), rest);
    }

    fn write(&self, out: &mut Vec<u8>) {
        let sizes = (
            self.max_adv_map_value_size,
            (
                self.max_adv_map_elements,
                (self.max_hash_len_bytes, (self.max_num_continuations, self.max_stack_depth)),
            ),
        );
        let flags = (self.enable_tracing, (self.enable_debugging, sizes));
        let fields: OptionFields = (
            (self.max_cycles, self.expected_cycles),
            (self.core_trace_fragment_size, flags),
        );
        fields.write(out);
    }

    fn read(bytes: &Vec<u8>, pos: usize) -> (r: Result<(Self, usize), ReadError>) {
        match OptionFields::read(bytes, pos) {
            Err(e) => Err(e),
            Ok((f, next)) => {
                let options = RunOptions {
                    max_cycles: f.0.0,
                    expected_cycles: f.0.1,
                    core_trace_fragment_size: f.1.0,
                    enable_tracing: f.1.1.0,
                    enable_debugging: f.1.1.1.0,
                    max_adv_map_value_size: f.1.1.1.1.0,
                    max_adv_map_elements: f.1.1.1.1.1.0,
                    max_hash_len_bytes: f.1.1.1.1.1.1.0,
                    max_num_continuations: f.1.1.1.1.1.1.1.0,
                    max_stack_depth: f.1.1.1.1.1.1.1.1,
                };
                match options.checked() {
                    Ok(options) => Ok((options, next)),
                    Err(m) => Err(
                        ReadError::InvalidValue(
                            crate::text::concat("invalid execution options: ", m.as_str()),
                        ),
                    ),
                }
            },
        }
    }
}

// ---------------------------------------------------------------------------------------------
// Stack inputs
// ---------------------------------------------------------------------------------------------

/// The operand stack that a program starts with, the top first.
#[derive(Debug)]
pub struct StackInputs {
    pub elements: Vec<Felt>,
}

/// Zero.
pub open spec fn zero() -> Felt {
    Felt { value: 0 }
}

/// These elements, filled up with zeros.
pub open spec fn padded(values: Seq<Felt>) -> Seq<Felt> {
    Seq::new(
        STACK_DEPTH as nat,
        |i: int|
            if i < values.len() {
                values[i]
            } else {
                zero()
            },
    )
}

/// Why these are too many elements.
pub open spec fn too_many(count: nat) -> Seq<char> {
    "number of input values on the stack cannot exceed "@ + crate::text::decimal(
        STACK_DEPTH as nat,
    ) + ", but was "@ + crate::text::decimal(count)
}

/// How many elements are left without the zeros at the end.
pub open spec fn significant(elements: Seq<Felt>) -> nat
    decreases elements.len(),
{
    if elements.len() > 0 && elements.last() == zero() {
        significant(elements.drop_last())
    } else {
        elements.len()
    }
}

impl StackInputs {
    pub open spec fn wf(&self) -> bool {
        self.elements@.len() == STACK_DEPTH
    }

    /// The stack with these elements on top. There is room for sixteen.
    pub fn new(values: &Vec<Felt>) -> (r: Result<Self, String>)
        ensures
            match r {
                Ok(inputs) => {
                    &&& values@.len() <= STACK_DEPTH
                    &&& inputs.wf()
                    &&& inputs.elements@ == padded(values@)
                },
                Err(m) => values@.len() > STACK_DEPTH && m@ == too_many(values@.len()),
            },
    {
        if values.len() > STACK_DEPTH {
            let mut m = "number of input values on the stack cannot exceed ".to_owned();
            m.append(crate::text::render_usize(STACK_DEPTH).as_str());
            m.append(", but was ");
            m.append(crate::text::render_usize(values.len()).as_str());
            return Err(m);
        }
        let mut elements: Vec<Felt> = Vec::new();
        let mut i: usize = 0;
        while i < STACK_DEPTH
            invariant
                i <= STACK_DEPTH,
                elements@ == padded(values@).take(i as int),
            decreases STACK_DEPTH - i,
        {
            if i < values.len() {
                elements.push(values[i]);
            } else {
                elements.push(Felt { value: 0 });
            }
            i += 1;
        }
        Ok(StackInputs { elements })
    }

    fn count(&self) -> (r: usize)
        ensures
            r == significant(self.elements@),
            r <= self.elements@.len(),
    {
        let mut n: usize = self.elements.len();
        proof {
            assert(self.elements@.take(n as int) =~= self.elements@);
        }
        while n > 0 && self.elements[n - 1].value == 0
            invariant
                n <= self.elements@.len(),
                significant(self.elements@) == significant(self.elements@.take(n as int)),
            decreases n,
        {
            proof {
                assert(self.elements@.take(n as int).drop_last() =~= self.elements@.take(n - 1));
            }
            n -= 1;
        }
        n
    }
}

proof fn significant_part(elements: Seq<Felt>)
    requires
        elements.len() == STACK_DEPTH,
    ensures
        significant(elements) <= STACK_DEPTH,
        padded(elements.take(significant(elements) as int)) == elements,
{
    significant_zeros(elements);
    assert(padded(elements.take(significant(elements) as int)) =~= elements);
}

proof fn significant_zeros(elements: Seq<Felt>)
    ensures
        significant(elements) <= elements.len(),
        forall|i: int| significant(elements) <= i < elements.len() ==> elements[i] == zero(),
    decreases elements.len(),
{
    if elements.len() > 0 && elements.last() == zero() {
        significant_zeros(elements.drop_last());
        assert forall|i: int| significant(elements) <= i < elements.len() implies elements[i]
            == zero() by {
            if i < elements.len() - 1 {
                assert(elements.drop_last()[i] == zero());
            }
        }
    }
}

/// A stack is written as the number of its elements without the zeros at the end, in one byte,
/// followed by these elements.
impl Record for StackInputs {
    type Content = Seq<Felt>;

    open spec fn content(&self) -> Seq<Felt> {
        self.elements@
    }

    open spec fn valid(content: Seq<Felt>) -> bool {
        &&& content.len() == STACK_DEPTH
        &&& forall|i: int| 0 <= i < content.len() ==> Felt::valid(#[trigger] content[i])
    }

    open spec fn encoded(content: Seq<Felt>) -> Seq<u8> {
        let n = significant(content);
        seq![n as u8] + crate::exec::advice::items_encoded::<Felt>(content.take(n as int))
    }

    open spec fn parsed(s: Seq<u8>) -> Result<(Seq<Felt>, Seq<u8>), ReadErrorView> {
        match u8::parsed(s) {
            Err(e) => Err(e),
            Ok((n, s)) => match crate::exec::advice::items_parsed::<Felt>(s, n as nat) {
                Err(e) => Err(e),
                Ok((values, s)) => if n > STACK_DEPTH {
                    Err(
                        ReadErrorView::InvalidValue(
                            "failed to create stack inputs: "@ + too_many(n as nat),
                        ),
                    )
                } else {
                    Ok((padded(values), s))
                },
            },
        }
    }

    proof fn reads_back(content: Seq<Felt>, rest: Seq<u8>) {
        significant_part(content);
        let n = significant(content);
        let kept = content.take(n as int);
        let behind = crate::exec::advice::items_encoded::<Felt>(kept) + rest;
        u8::reads_back(n as u8, behind);
        crate::exec::advice::items_read_back::<Felt>(kept, rest);
        assert(Self::encoded(content) + rest =~= seq![n as u8] + behind);
    }

    fn write(&self, out: &mut Vec<u8>) {
        let n: usize = self.count();
        let first: u8 = #[verifier::truncate]
        (n as u8);
        first.write(out);
        crate::exec::advice::write_items(&self.elements, n, out);
        proof {
            assert(crate::exec::advice::contents(self.elements@.take(n as int))
                =~= self.elements@.take(n as int));
            assert(out@ =~= old(out)@ + Self::encoded(self.content()));
        }
    }

    fn read(bytes: &Vec<u8>, pos: usize) -> (r: Result<(Self, usize), ReadError>) {
        match u8::read(bytes, pos) {
            Err(e) => Err(e),
            Ok((n, pos)) => match crate::exec::advice::read_items::<Felt>(bytes, pos, n as usize) {
                Err(e) => Err(e),
                Ok((values, pos)) => match StackInputs::new(&values) {
                    Ok(inputs) => {
                        proof {
                            assert(crate::exec::advice::contents(values@) =~= values@);
                        }
                        Ok((inputs, pos))
                    },
                    Err(m) => Err(
                        ReadError::InvalidValue(
                            crate::text::concat("failed to create stack inputs: ", m.as_str()),
                        ),
                    ),
                },
            },
        }
    }
}

// ---------------------------------------------------------------------------------------------
// What holds of all limits and stacks
// ---------------------------------------------------------------------------------------------

proof fn the_least_power_is_found(j: nat, n: nat) -> (k: nat)
    ensures
        j <= k,
        power_of_two_from(vstd::arithmetic::power2::pow2(j), n) == vstd::arithmetic::power2::pow2(k),
        n <= vstd::arithmetic::power2::pow2(k),
        j < k ==> vstd::arithmetic::power2::pow2((k - 1) as nat) < n,
    decreases
        if vstd::arithmetic::power2::pow2(j) < n {
            n - vstd::arithmetic::power2::pow2(j)
        } else {
            0
        },
{
    let power = vstd::arithmetic::power2::pow2(j);
    vstd::arithmetic::power2::lemma_pow2_pos(j);
    if power >= n {
        j
    } else {
        vstd::arithmetic::power2::lemma_pow2_unfold(j + 1);
        assert(vstd::arithmetic::power2::pow2(j + 1) == 2 * power);
        let k = the_least_power_is_found(j + 1, n);
        k
    }
}

/// Limits that are accepted stay as they are, but for the expected number of cycles, which is rounded
/// up to a power of two of at least sixty-four, and no further than need be; it does not exceed the
/// limit on cycles. That limit is between sixty-four and two to the power of twenty-nine, and the
/// operand stack has room for sixteen elements.
pub proof fn accepted_limits_are_rounded_up(options: RunOptions)
    ensures
        match options.accepted() {
            Ok(accepted) => {
                &&& accepted == (RunOptions { expected_cycles: accepted.expected_cycles, ..options })
                &&& options.expected_cycles <= accepted.expected_cycles
                &&& 64 <= accepted.expected_cycles <= options.max_cycles <= 0x2000_0000
                &&& exists|k: nat| accepted.expected_cycles == #[trigger] vstd::arithmetic::power2::pow2(k)
                &&& accepted.expected_cycles == 64 || accepted.expected_cycles < 2
                    * options.expected_cycles
                &&& options.core_trace_fragment_size > 0
                &&& options.max_stack_depth >= 16
            },
            Err(_) => {
                ||| options.max_cycles < 64
                ||| options.max_cycles > 0x2000_0000
                ||| forall|k: nat|
                    options.expected_cycles <= #[trigger] vstd::arithmetic::power2::pow2(k) ==> 64
                        > options.max_cycles || vstd::arithmetic::power2::pow2(k)
                        > options.max_cycles
                ||| options.core_trace_fragment_size == 0
                ||| options.max_stack_depth < 16
            },
        },
{
    let expected: u32 = if options.expected_cycles > LARGEST_POWER {
        LARGEST_POWER
    } else {
        options.expected_cycles
    };
    vstd::arithmetic::power2::lemma2_to64();
    vstd::arithmetic::power2::lemma2_to64_rest();
    let k = the_least_power_is_found(0, expected as nat);
    let power = power_of_two_from(1, expected as nat);
    assert(power == vstd::arithmetic::power2::pow2(k));
    if k > 0 {
        vstd::arithmetic::power2::lemma_pow2_unfold(k);
    }
    assert(vstd::arithmetic::power2::pow2(6) == 64);
    if power < 64 {
        assert(vstd::arithmetic::power2::pow2(6) == 64);
    }
    assert forall|m: nat|
        options.expected_cycles <= #[trigger] vstd::arithmetic::power2::pow2(m)
            && vstd::arithmetic::power2::pow2(m) <= options.max_cycles && options.max_cycles
            <= 0x2000_0000 implies power <= vstd::arithmetic::power2::pow2(m) by {
        if m < k {
            if m < k - 1 {
                vstd::arithmetic::power2::lemma_pow2_strictly_increases(m, (k - 1) as nat);
            }
            assert(false);
        } else if k < m {
            vstd::arithmetic::power2::lemma_pow2_strictly_increases(k, m);
        }
    }
}

/// The limits are written in this order, each as its type is.
pub proof fn limits_are_written_in_order(options: RunOptions)
    ensures
        RunOptions::encoded(options) == u32::encoded(options.max_cycles) + u32::encoded(
            options.expected_cycles,
        ) + usize::encoded(options.core_trace_fragment_size) + bool::encoded(options.enable_tracing)
            + bool::encoded(options.enable_debugging) + usize::encoded(
            options.max_adv_map_value_size,
        ) + usize::encoded(options.max_adv_map_elements) + usize::encoded(
            options.max_hash_len_bytes,
        ) + usize::encoded(options.max_num_continuations) + usize::encoded(options.max_stack_depth),
        RunOptions::from_order(options.in_order()) == options,
{
    assert(RunOptions::encoded(options) =~= u32::encoded(options.max_cycles) + u32::encoded(
        options.expected_cycles,
    ) + usize::encoded(options.core_trace_fragment_size) + bool::encoded(options.enable_tracing)
        + bool::encoded(options.enable_debugging) + usize::encoded(options.max_adv_map_value_size)
        + usize::encoded(options.max_adv_map_elements) + usize::encoded(options.max_hash_len_bytes)
        + usize::encoded(options.max_num_continuations) + usize::encoded(options.max_stack_depth));
}

/// A stack has sixteen elements: those that are given, from the top on, and zeros below them.
pub proof fn stacks_are_filled_up_with_zeros(values: Seq<Felt>, i: int)
    requires
        0 <= i < 16,
    ensures
        padded(values).len() == 16,
        i < values.len() ==> padded(values)[i] == values[i],
        i >= values.len() ==> padded(values)[i].value == 0,
{
}

/// Of a stack the elements down to the last one that is not zero are written, behind their number.
pub proof fn the_zeros_below_are_not_written(elements: Seq<Felt>)
    requires
        elements.len() == 16,
    ensures
        ({
            let n = significant(elements) as int;
            let s = StackInputs::encoded(elements);
            &&& 0 <= n <= 16
            &&& n > 0 ==> elements[n - 1].value != 0
            &&& forall|i: int| n <= i < 16 ==> (#[trigger] elements[i]).value == 0
            &&& s.len() > 0
            &&& s[0] == n
            &&& s.skip(1) == crate::exec::advice::items_encoded::<Felt>(elements.take(n))
        }),
{
    significant_zeros(elements);
    significant_is_not_zero(elements);
    let n = significant(elements) as int;
    let s = StackInputs::encoded(elements);
    assert(s.skip(1) =~= crate::exec::advice::items_encoded::<Felt>(elements.take(n)));
    assert forall|i: int| n <= i < 16 implies (#[trigger] elements[i]).value == 0 by {
        assert(elements[i] == zero());
    }
}

proof fn significant_is_not_zero(elements: Seq<Felt>)
    ensures
        significant(elements) <= elements.len(),
        significant(elements) > 0 ==> elements[significant(elements) - 1].value != 0,
    decreases elements.len(),
{
    if elements.len() > 0 && elements.last() == zero() {
        significant_is_not_zero(elements.drop_last());
    }
}

/// A stack that is read has sixteen elements, whatever their number was; more than sixteen are
/// refused.
pub proof fn a_stack_that_is_read_is_full(s: Seq<u8>)
    ensures
        StackInputs::parsed(s) matches Ok((elements, _)) ==> elements.len() == 16 && s.len() > 0
            && s[0] <= 16,
{
}

} // verus!
