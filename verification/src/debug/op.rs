//! Operations of the virtual machine, and the source-level instructions they stem from.
use miden_core::serde::Deserializable;
use vstd::prelude::*;

verus! {

/// The operation code of `noop`.
pub const OP_NOOP: u8 = 0x00;

/// The operation code of `split`.
pub const OP_SPLIT: u8 = 0x54;

/// The operation code of `loop`.
pub const OP_LOOP: u8 = 0x55;

/// The operation code of `span`.
pub const OP_SPAN: u8 = 0x56;

/// The operation code of `join`.
pub const OP_JOIN: u8 = 0x57;

/// The operation code of `dyn`.
pub const OP_DYN: u8 = 0x58;

/// The operation code of `dyncall`.
pub const OP_DYNCALL: u8 = 0x5c;

/// The operation code of `syscall`.
pub const OP_SYSCALL: u8 = 0x68;

/// The operation code of `call`.
pub const OP_CALL: u8 = 0x6c;

/// The operation code of `end`.
pub const OP_END: u8 = 0x70;

/// The operation code of `repeat`.
pub const OP_REPEAT: u8 = 0x74;

/// The operation code of `respan`.
pub const OP_RESPAN: u8 = 0x78;

/// The operation code of `halt`.
pub const OP_HALT: u8 = 0x7c;

/// An operation of the virtual machine: its code, and the immediate value it carries (zero where
/// it carries none).
#[derive(Debug, Clone, Copy, PartialEq, Eq, Structural)]
pub struct Operation {
    pub code: u8,
    pub imm: u64,
}

/// The text of the operation with this code and immediate value, as the virtual machine's own
/// library prints it; none where the two make no basic operation.
pub uninterp spec fn basic_operation_text(code: u8, imm: u64) -> Option<Seq<char>>;

/// The text of a basic operation.
///
/// Trusted: `Operation::read_from_bytes` of `miden-core`, applied to the operation code followed
/// by the immediate value in little-endian order, which is how that crate writes an operation
/// down; and its `Display`. The result is named, not described: the text depends on the code and
/// the immediate value alone.
#[verifier::external_body]
fn basic_text(code: u8, imm: u64) -> (r: Option<String>)
    ensures
        match r {
            Some(text) => basic_operation_text(code, imm) == Some(text@),
            None => basic_operation_text(code, imm) is None,
        },
{
    let mut bytes = vec![code];
    bytes.extend(imm.to_le_bytes());
    match miden_core::operations::Operation::read_from_bytes(&bytes) {
        Ok(op) => Some(op.to_string()),
        Err(_) => None,
    }
}

/// The text of a control flow operation; none where the code is that of no such operation.
pub open spec fn control_flow_text(code: u8) -> Option<Seq<char>> {
    if code == OP_SPLIT {
        Some("split"@)
    } else if code == OP_LOOP {
        Some("loop"@)
    } else if code == OP_SPAN {
        Some("span"@)
    } else if code == OP_JOIN {
        Some("join"@)
    } else if code == OP_DYN {
        Some("dyn"@)
    } else if code == OP_DYNCALL {
        Some("dyncall"@)
    } else if code == OP_SYSCALL {
        Some("syscall"@)
    } else if code == OP_CALL {
        Some("call"@)
    } else if code == OP_END {
        Some("end"@)
    } else if code == OP_REPEAT {
        Some("repeat"@)
    } else if code == OP_RESPAN {
        Some("respan"@)
    } else if code == OP_HALT {
        Some("halt"@)
    } else {
        None
    }
}

impl Operation {
    /// What the operation is printed as.
    pub open spec fn printed(self) -> Seq<char> {
        match control_flow_text(self.code) {
            Some(text) => text,
            None => match basic_operation_text(self.code, self.imm) {
                Some(text) => text,
                None => "<invalid>"@,
            },
        }
    }

    /// Whether the operation leaves no entry in a call frame: it only shapes control flow.
    pub open spec fn is_structural(self) -> bool {
        self.code == OP_JOIN || self.code == OP_SPLIT || self.code == OP_SPAN || self.code
            == OP_RESPAN || self.code == OP_END
    }

    /// Whether the operation leaves no entry in a call frame: it only shapes control flow.
    pub fn structural(&self) -> (r: bool)
        ensures
            r == self.is_structural(),
    {
        self.code == OP_JOIN || self.code == OP_SPLIT || self.code == OP_SPAN || self.code
            == OP_RESPAN || self.code == OP_END
    }

    /// What the operation is printed as.
    pub fn text(&self) -> (r: String)
        ensures
            r@ == self.printed(),
    {
        match control_text(self.code) {
            Some(text) => text.to_owned(),
            None => match basic_text(self.code, self.imm) {
                Some(text) => text,
                None => "<invalid>".to_owned(),
            },
        }
    }
}

/// The text of a control flow operation; none where the code is that of no such operation.
pub fn control_text(code: u8) -> (r: Option<&'static str>)
    ensures
        match r {
            Some(text) => control_flow_text(code) == Some(text@),
            None => control_flow_text(code) is None,
        },
{
    if code == OP_SPLIT {
        Some("split")
    } else if code == OP_LOOP {
        Some("loop")
    } else if code == OP_SPAN {
        Some("span")
    } else if code == OP_JOIN {
        Some("join")
    } else if code == OP_DYN {
        Some("dyn")
    } else if code == OP_DYNCALL {
        Some("dyncall")
    } else if code == OP_SYSCALL {
        Some("syscall")
    } else if code == OP_CALL {
        Some("call")
    } else if code == OP_END {
        Some("end")
    } else if code == OP_REPEAT {
        Some("repeat")
    } else if code == OP_RESPAN {
        Some("respan")
    } else if code == OP_HALT {
        Some("halt")
    } else {
        None
    }
}

/// A stretch of a source file.
#[derive(Debug)]
pub struct Location {
    pub uri: String,
    /// The first byte of the stretch.
    pub start: u32,
    /// The byte behind the stretch.
    pub end: u32,
}

/// What a [`Location`] says.
pub struct LocationView {
    pub uri: Seq<char>,
    pub start: u32,
    pub end: u32,
}

impl View for Location {
    type V = LocationView;

    open spec fn view(&self) -> LocationView {
        LocationView { uri: self.uri@, start: self.start, end: self.end }
    }
}

impl Clone for Location {
    fn clone(&self) -> (r: Self)
        ensures
            r == *self,
    {
        Location { uri: self.uri.clone(), start: self.start, end: self.end }
    }
}

/// The view of an optional location.
pub open spec fn location_view(location: Option<Location>) -> Option<LocationView> {
    match location {
        Some(l) => Some(l@),
        None => None,
    }
}

pub(crate) fn clone_location(location: &Option<Location>) -> (r: Option<Location>)
    ensures
        r == *location,
{
    match location {
        Some(l) => Some(l.clone()),
        None => None,
    }
}

/// The view of an optional text.
pub open spec fn text_view(text: Option<String>) -> Option<Seq<char>> {
    match text {
        Some(t) => Some(t@),
        None => None,
    }
}

pub(crate) fn clone_text(text: &Option<String>) -> (r: Option<String>)
    ensures
        r == *text,
{
    match text {
        Some(t) => Some(t.clone()),
        None => None,
    }
}

/// The assembly instruction that an operation stems from.
#[derive(Debug)]
pub struct AssemblyOp {
    pub location: Option<Location>,
    /// The fully qualified name of the procedure the instruction stands in.
    pub context_name: String,
    /// How many cycles the whole instruction takes.
    pub num_cycles: u8,
    /// The instruction itself.
    pub op: String,
}

/// What an [`AssemblyOp`] says.
pub struct AssemblyOpView {
    pub location: Option<LocationView>,
    pub context_name: Seq<char>,
    pub num_cycles: u8,
    pub op: Seq<char>,
}

impl View for AssemblyOp {
    type V = AssemblyOpView;

    open spec fn view(&self) -> AssemblyOpView {
        AssemblyOpView {
            location: location_view(self.location),
            context_name: self.context_name@,
            num_cycles: self.num_cycles,
            op: self.op@,
        }
    }
}

impl Clone for AssemblyOp {
    fn clone(&self) -> (r: Self)
        ensures
            r == *self,
    {
        AssemblyOp {
            location: clone_location(&self.location),
            context_name: self.context_name.clone(),
            num_cycles: self.num_cycles,
            op: self.op.clone(),
        }
    }
}

/// The view of an optional instruction.
pub open spec fn asmop_view(asmop: Option<AssemblyOp>) -> Option<AssemblyOpView> {
    match asmop {
        Some(a) => Some(a@),
        None => None,
    }
}

pub(crate) fn clone_asmop(asmop: &Option<AssemblyOp>) -> (r: Option<AssemblyOp>)
    ensures
        r == *asmop,
{
    match asmop {
        Some(a) => Some(a.clone()),
        None => None,
    }
}

impl AssemblyOp {
    pub fn new(
        location: Option<Location>,
        context_name: String,
        num_cycles: u8,
        op: String,
    ) -> (r: Self)
        ensures
            r == (AssemblyOp { location, context_name, num_cycles, op }),
    {
        AssemblyOp { location, context_name, num_cycles, op }
    }

    /// Whether both instructions say the same.
    pub fn same(&self, other: &AssemblyOp) -> (r: bool)
        ensures
            r == (self@ == other@),
    {
        let same_location = match (&self.location, &other.location) {
            (Some(a), Some(b)) => a.uri == b.uri && a.start == b.start && a.end == b.end,
            (None, None) => true,
            _ => false,
        };
        same_location && self.context_name == other.context_name && self.num_cycles
            == other.num_cycles && self.op == other.op
    }
}

/// Whether both are missing, or both say the same.
pub fn same_asmop(a: &Option<AssemblyOp>, b: &Option<AssemblyOp>) -> (r: bool)
    ensures
        r == (asmop_view(*a) == asmop_view(*b)),
{
    match (a, b) {
        (Some(a), Some(b)) => a.same(b),
        (None, None) => true,
        _ => false,
    }
}

/// What the virtual machine reports through its trace instructions.
#[derive(Debug, Clone, Copy, PartialEq, Eq, Structural)]
pub enum TraceEvent {
    /// A procedure call frame is entered.
    FrameStart,
    /// A procedure call frame is left.
    FrameEnd,
    /// An assertion failed, with its error code where it has one.
    AssertionFailed(Option<u32>),
    /// Any other trace.
    Unknown(u32),
}

// ---------------------------------------------------------------------------------------------
// What holds of all operations
// ---------------------------------------------------------------------------------------------

/// Control flow operations are known by their codes, and no two of them are printed alike. What any
/// other operation is printed as is up to the virtual machine.
pub proof fn control_flow_operations_are_printed_by_name(op: Operation)
    ensures
        op.code == 0x54 ==> op.printed() == "split"@,
        op.code == 0x55 ==> op.printed() == "loop"@,
        op.code == 0x56 ==> op.printed() == "span"@,
        op.code == 0x57 ==> op.printed() == "join"@,
        op.code == 0x58 ==> op.printed() == "dyn"@,
        op.code == 0x5c ==> op.printed() == "dyncall"@,
        op.code == 0x68 ==> op.printed() == "syscall"@,
        op.code == 0x6c ==> op.printed() == "call"@,
        op.code == 0x70 ==> op.printed() == "end"@,
        op.code == 0x74 ==> op.printed() == "repeat"@,
        op.code == 0x78 ==> op.printed() == "respan"@,
        op.code == 0x7c ==> op.printed() == "halt"@,
        op.code < 0x54 ==> (basic_operation_text(op.code, op.imm) matches Some(text)
            ==> op.printed() == text),
        op.code < 0x54 && basic_operation_text(op.code, op.imm) is None ==> op.printed()
            == "<invalid>"@,
{
}

/// Only `split`, `span`, `join`, `end` and `respan` do nothing but shape control flow: calls and
/// loops leave their entries.
pub proof fn few_operations_are_structural(op: Operation)
    ensures
        op.is_structural() <==> {
            let name = control_flow_text(op.code);
            name == Some("split"@) || name == Some("span"@) || name == Some("join"@) || name == Some(
                "end"@,
            ) || name == Some("respan"@)
        },
{
    reveal_strlit("split");
    reveal_strlit("loop");
    reveal_strlit("span");
    reveal_strlit("join");
    reveal_strlit("dyn");
    reveal_strlit("dyncall");
    reveal_strlit("syscall");
    reveal_strlit("call");
    reveal_strlit("end");
    reveal_strlit("repeat");
    reveal_strlit("respan");
    reveal_strlit("halt");
    assert("split"@.len() == 5 && "loop"@.len() == 4 && "span"@.len() == 4 && "join"@.len() == 4
        && "dyn"@.len() == 3 && "dyncall"@.len() == 7 && "syscall"@.len() == 7 && "call"@.len() == 4
        && "end"@.len() == 3 && "repeat"@.len() == 6 && "respan"@.len() == 6 && "halt"@.len() == 4);
    assert("loop"@[0] == 'l' && "span"@[0] == 's' && "join"@[0] == 'j' && "call"@[0] == 'c'
        && "halt"@[0] == 'h' && "dyn"@[0] == 'd' && "end"@[0] == 'e');
    assert("repeat"@[2] == 'p' && "respan"@[2] == 's');
}

/// Instructions that say the same are the same in all that they hold.
pub proof fn an_instruction_is_all_that_it_holds(a: AssemblyOp, b: AssemblyOp)
    ensures
        a@ == b@ <==> {
            &&& a.op@ == b.op@
            &&& a.context_name@ == b.context_name@
            &&& a.num_cycles == b.num_cycles
            &&& match (a.location, b.location) {
                (Some(x), Some(y)) => x.uri@ == y.uri@ && x.start == y.start && x.end == y.end,
                (None, None) => true,
                _ => false,
            }
        },
{
}

} // verus!
