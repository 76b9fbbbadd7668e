//! Breakpoints, and the numbers they are known by.
use vstd::prelude::*;
use vstd::string::*;

verus! {

/// When the debugger is to stop.
#[derive(Debug)]
pub enum BreakpointType {
    /// When the current procedure is left.
    Finish,
    /// At a place that is given in words.
    Other(String),
}

impl Clone for BreakpointType {
    fn clone(&self) -> (r: Self)
        ensures
            r == *self,
    {
        match self {
            BreakpointType::Finish => BreakpointType::Finish,
            BreakpointType::Other(text) => BreakpointType::Other(text.clone()),
        }
    }
}

/// A point at which the debugger is to stop.
#[derive(Debug)]
pub struct Breakpoint {
    pub id: u8,
    /// The cycle in which the breakpoint was made.
    pub creation_cycle: usize,
    pub ty: BreakpointType,
}

/// The number behind a number; zero behind the largest.
pub open spec fn next_id(id: u8) -> u8 {
    if id == u8::MAX {
        0
    } else {
        (id + 1) as u8
    }
}

/// The number `k` places behind a number.
pub open spec fn nth_id(id: u8, k: int) -> u8 {
    ((id + k) % 256) as u8
}

/// How many numbers are tried for a new breakpoint.
pub const MOST_TRIES: usize = 255;

/// The first of the next numbers, from one on, that is not used.
pub open spec fn first_free(used: Set<u8>, from: u8, tries: nat) -> Option<u8>
    decreases tries,
{
    if tries == 0 {
        None
    } else if !used.contains(from) {
        Some(from)
    } else {
        first_free(used, next_id(from), (tries - 1) as nat)
    }
}

/// The numbers of breakpoints.
pub open spec fn ids_of(breakpoints: Seq<Breakpoint>) -> Seq<u8> {
    breakpoints.map_values(|b: Breakpoint| b.id)
}

/// The numbers of breakpoints.
pub open spec fn used_by(breakpoints: Seq<Breakpoint>) -> Set<u8> {
    ids_of(breakpoints).to_set()
}

/// Whether a number is that of one of the breakpoints.
pub fn is_used(breakpoints: &Vec<Breakpoint>, id: u8) -> (r: bool)
    ensures
        r == used_by(breakpoints@).contains(id),
{
    let mut i: usize = 0;
    while i < breakpoints.len()
        invariant
            i <= breakpoints@.len(),
            forall|k: int| 0 <= k < i ==> #[trigger] ids_of(breakpoints@)[k] != id,
        decreases breakpoints@.len() - i,
    {
        if breakpoints[i].id == id {
            proof {
                assert(ids_of(breakpoints@)[i as int] == id);
            }
            return true;
        }
        i += 1;
    }
    false
}

/// A number that is not among those tried makes no difference.
proof fn unused_makes_no_difference(used: Set<u8>, id: u8, from: u8, tries: nat)
    requires
        forall|k: int| 0 <= k < tries ==> #[trigger] nth_id(from, k) != id,
    ensures
        first_free(used.remove(id), from, tries) == first_free(used, from, tries),
    decreases tries,
{
    if tries > 0 {
        assert(nth_id(from, 0) == from);
        assert forall|k: int| 0 <= k < tries - 1 implies #[trigger] nth_id(next_id(from), k)
            != id by {
            assert(nth_id(next_id(from), k) == nth_id(from, k + 1));
        }
        unused_makes_no_difference(used, id, next_id(from), (tries - 1) as nat);
    }
}

/// As many numbers as were tried in vain are used.
proof fn tried_are_used(used: Set<u8>, from: u8, tries: nat)
    requires
        used.finite(),
        tries <= 256,
        first_free(used, from, tries) is None,
    ensures
        used.len() >= tries,
    decreases tries,
{
    if tries > 0 {
        assert forall|k: int| 0 <= k < tries - 1 implies #[trigger] nth_id(next_id(from), k)
            != from by {
            assert(nth_id(next_id(from), k) == nth_id(from, k + 1));
        }
        unused_makes_no_difference(used, from, next_id(from), (tries - 1) as nat);
        tried_are_used(used.remove(from), next_id(from), (tries - 1) as nat);
    }
}

/// There is a number for another breakpoint as long as there are fewer than 255 of them.
pub proof fn there_is_room(used: Set<u8>, from: u8)
    requires
        used.finite(),
        used.len() < MOST_TRIES,
    ensures
        first_free(used, from, MOST_TRIES as nat) is Some,
{
    if first_free(used, from, MOST_TRIES as nat) is None {
        tried_are_used(used, from, MOST_TRIES as nat);
    }
}

/// The number that is found is not used.
pub proof fn found_is_free(used: Set<u8>, from: u8, tries: nat)
    ensures
        first_free(used, from, tries) matches Some(id) ==> !used.contains(id),
    decreases tries,
{
    if tries > 0 && used.contains(from) {
        found_is_free(used, next_id(from), (tries - 1) as nat);
    }
}

/// There are no more than 256 different numbers.
pub proof fn at_most_256(ids: Seq<u8>)
    requires
        ids.no_duplicates(),
    ensures
        ids.len() <= 256,
{
    ids.unique_seq_to_set();
    let numbers = vstd::set_lib::set_int_range(0, 256);
    vstd::set_lib::lemma_int_range(0, 256);
    let used = ids.to_set().map(|n: u8| n as int);
    assert(used.subset_of(numbers)) by {
        assert forall|n: int| used.contains(n) implies numbers.contains(n) by {}
    }
    vstd::set_lib::lemma_len_subset(used, numbers);
    vstd::set_lib::lemma_map_size(ids.to_set(), used, |n: u8| n as int);
}

/// The number that is found is the first one behind the given one, going round behind 255, that is
/// not used; none is found where all that were tried are used.
pub proof fn the_first_free_number_is_found(used: Set<u8>, from: u8, tries: nat)
    requires
        tries <= 256,
    ensures
        match first_free(used, from, tries) {
            Some(id) => exists|k: int|
                {
                    &&& 0 <= k < tries
                    &&& id == #[trigger] nth_id(from, k)
                    &&& !used.contains(id)
                    &&& forall|j: int| 0 <= j < k ==> used.contains(#[trigger] nth_id(from, j))
                },
            None => forall|j: int| 0 <= j < tries ==> used.contains(#[trigger] nth_id(from, j)),
        },
    decreases tries,
{
    if tries > 0 {
        assert(nth_id(from, 0) == from);
        if used.contains(from) {
            the_first_free_number_is_found(used, next_id(from), (tries - 1) as nat);
            assert forall|k: int| 0 <= k implies #[trigger] nth_id(next_id(from), k) == nth_id(
                from,
                k + 1,
            ) by {}
            assert forall|j: int| 0 < j implies #[trigger] nth_id(from, j) == nth_id(
                next_id(from),
                j - 1,
            ) by {}
            if let Some(id) = first_free(used, from, tries) {
                let k = choose|k: int|
                    {
                        &&& 0 <= k < tries - 1
                        &&& id == #[trigger] nth_id(next_id(from), k)
                        &&& !used.contains(id)
                        &&& forall|j: int|
                            0 <= j < k ==> used.contains(#[trigger] nth_id(next_id(from), j))
                    };
                assert(id == nth_id(from, k + 1));
            }
        }
    }
}

/// The numbers go round: behind 255 comes zero.
pub proof fn numbers_go_round(id: u8, k: int)
    requires
        0 <= k < 256,
    ensures
        nth_id(id, k) == if id + k < 256 {
            id + k
        } else {
            id + k - 256
        },
        next_id(id) == nth_id(id, 1),
{
}

} // verus!
