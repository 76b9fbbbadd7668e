//! The call stack of a running program, rebuilt from what the virtual machine reports each cycle.
use std::collections::{BTreeMap, VecDeque};

use vstd::prelude::*;
use vstd::string::*;

use crate::debug::op::{
    clone_location, clone_text, AssemblyOp, AssemblyOpView, Location, LocationView,
    Operation, TraceEvent, OP_END, OP_JOIN, OP_NOOP, OP_SPAN, OP_SPLIT,
};
use crate::debug::source::{ResolvedLocation, ResolvedView, SourceManager, SourcesView};

verus! {

/// How many operations a call frame remembers.
pub const CONTEXT_SIZE: usize = 5;

// ---------------------------------------------------------------------------------------------
// Remembered operations
// ---------------------------------------------------------------------------------------------

/// An operation that a call frame remembers.
#[derive(Debug)]
pub enum OpDetail {
    /// An operation with the location it stems from. The location is resolved once, on demand:
    /// `resolved` is unset until then, and holds nothing where the location has no known source.
    Full { op: Operation, location: Option<Location>, resolved: Option<Option<ResolvedLocation>> },
    /// A procedure was entered.
    Exec { callee: Option<String> },
    /// An operation of which nothing more is known.
    Basic { op: Operation },
}

/// What an [`OpDetail`] says.
pub enum DetailView {
    Full { op: Operation, location: Option<LocationView>, resolved: Option<Option<ResolvedView>> },
    Exec { callee: Option<Seq<char>> },
    Basic { op: Operation },
}

impl View for OpDetail {
    type V = DetailView;

    open spec fn view(&self) -> DetailView {
        match self {
            OpDetail::Full { op, location, resolved } => DetailView::Full {
                op: *op,
                location: crate::debug::op::location_view(*location),
                resolved: match resolved {
                    Some(r) => Some(crate::debug::source::resolved_view(*r)),
                    None => None,
                },
            },
            OpDetail::Exec { callee } => DetailView::Exec {
                callee: crate::debug::op::text_view(*callee),
            },
            OpDetail::Basic { op } => DetailView::Basic { op: *op },
        }
    }
}

/// What stands behind the first `::` where `prefix` stands before it, else the whole name.
pub open spec fn without_module(name: Seq<char>, prefix: Seq<char>) -> Seq<char> {
    match crate::text::split_first(name, "::"@) {
        Some((module, rest)) => if module == prefix {
            rest
        } else {
            name
        },
        None => name,
    }
}

/// The name with its mangled Rust symbols written out.
pub uninterp spec fn demangled(name: Seq<char>) -> Seq<char>;

/// The name with its mangled Rust symbols written out, without their hashes.
///
/// Trusted: `rustc_demangle::demangle_stream`. The result is named, not described, and depends on
/// the name alone; a name in which neither `_ZN` nor `_R` occurs holds no mangled symbol and comes
/// back as it is.
#[verifier::external_body]
fn demangle(name: &str) -> (r: String)
    ensures
        r@ == demangled(name@),
        crate::text::find_from(name@, "_ZN"@, 0) is None && crate::text::find_from(
            name@,
            "_R"@,
            0,
        ) is None ==> r@ == name@,
{
    let mut input = name.as_bytes();
    let mut output = Vec::new();
    rustc_demangle::demangle_stream(&mut input, &mut output, false)
        .expect("writing to a vector does not fail");
    String::from_utf8(output).expect("demangled text is valid UTF-8")
}

/// A name without its module, where that is `prefix`, and with its symbols written out.
pub open spec fn shown_name(name: Seq<char>, prefix: Seq<char>) -> Seq<char> {
    demangled(without_module(name, prefix))
}

/// What stands behind the first `::` where `prefix` stands before it, else the whole name.
pub fn strip_module(name: &str, prefix: &str) -> (r: String)
    ensures
        r@ == without_module(name@, prefix@),
{
    match crate::text::split_once(name, "::") {
        Some((module, rest)) => if crate::text::same(module.as_str(), prefix) {
            rest
        } else {
            name.to_owned()
        },
        None => name.to_owned(),
    }
}

fn show_name(name: &str, prefix: &str) -> (r: String)
    ensures
        r@ == shown_name(name@, prefix@),
{
    demangle(strip_module(name, prefix).as_str())
}

impl DetailView {
    /// The operation, where there is one.
    pub open spec fn operation(self) -> Option<Operation> {
        match self {
            DetailView::Full { op, .. } => Some(op),
            DetailView::Basic { op } => Some(op),
            DetailView::Exec { .. } => None,
        }
    }

    /// The location, where one is known.
    pub open spec fn location(self) -> Option<LocationView> {
        match self {
            DetailView::Full { location, .. } => location,
            _ => None,
        }
    }

    /// The name of the procedure that was entered, for display; none for an operation.
    pub open spec fn callee(self, prefix: Seq<char>) -> Option<Seq<char>> {
        match self {
            DetailView::Exec { callee: None } => Some("<unknown>"@),
            DetailView::Exec { callee: Some(name) } => Some(shown_name(name, prefix)),
            _ => None,
        }
    }

    /// What the entry is printed as.
    pub open spec fn printed(self) -> Seq<char> {
        match self {
            DetailView::Full { op, .. } => op.printed(),
            DetailView::Basic { op } => op.printed(),
            DetailView::Exec { callee: Some(name) } => "exec."@ + name,
            DetailView::Exec { callee: None } => "exec.<unavailable>"@,
        }
    }

    /// Whether the location, if it is still to be resolved, starts inside its source.
    pub open spec fn fits(self, sources: SourcesView) -> bool {
        match self {
            DetailView::Full { location: Some(location), resolved: None, .. } =>
                crate::debug::source::location_fits(location, sources),
            _ => true,
        }
    }

    /// What the location resolves to, once it has been resolved.
    pub open spec fn resolution(self) -> Option<ResolvedView> {
        match self {
            DetailView::Full { resolved: Some(r), .. } => r,
            _ => None,
        }
    }

    /// The entry once its location has been resolved: one that has no location, or was resolved
    /// before, stays as it is.
    pub open spec fn resolved(self, sources: SourcesView) -> DetailView {
        match self {
            DetailView::Full { op, location: Some(location), resolved: None } => DetailView::Full {
                op,
                location: Some(location),
                resolved: Some(crate::debug::source::resolved_with(location, sources)),
            },
            _ => self,
        }
    }
}

impl OpDetail {
    /// The name of the procedure that was entered, without its module where that is
    /// `strip_prefix`; none for an operation.
    pub fn callee(&self, strip_prefix: &str) -> (r: Option<String>)
        ensures
            crate::debug::op::text_view(r) == self@.callee(strip_prefix@),
    {
        match self {
            OpDetail::Exec { callee: None } => Some("<unknown>".to_owned()),
            OpDetail::Exec { callee: Some(name) } => Some(show_name(name.as_str(), strip_prefix)),
            _ => None,
        }
    }

    /// What the entry is printed as.
    pub fn display(&self) -> (r: String)
        ensures
            r@ == self@.printed(),
    {
        match self {
            OpDetail::Full { op, .. } => op.text(),
            OpDetail::Basic { op } => op.text(),
            OpDetail::Exec { callee: Some(name) } => crate::text::concat("exec.", name.as_str()),
            OpDetail::Exec { callee: None } => "exec.<unavailable>".to_owned(),
        }
    }

    /// The operation. An entered procedure has none.
    pub fn opcode(&self) -> (r: Operation)
        requires
            !(self@ is Exec),
        ensures
            self@.operation() == Some(r),
    {
        match self {
            OpDetail::Full { op, .. } => *op,
            OpDetail::Basic { op } => *op,
            OpDetail::Exec { .. } => Operation { code: OP_NOOP, imm: 0 },
        }
    }

    /// The location, where one is known.
    pub fn location(&self) -> (r: Option<&Location>)
        ensures
            match r {
                Some(l) => self@.location() == Some(l@),
                None => self@.location() is None,
            },
    {
        match self {
            OpDetail::Full { location: Some(l), .. } => Some(l),
            _ => None,
        }
    }

    /// Whether the location, if it is still to be resolved, starts inside its source.
    pub fn fits(&self, sources: &SourceManager) -> (r: bool)
        requires
            sources.wf(),
        ensures
            r == self@.fits(sources@),
    {
        match self {
            OpDetail::Full { location: Some(l), resolved: None, .. } =>
                crate::debug::source::fits(l, sources),
            _ => true,
        }
    }

    /// Resolves the location, unless that was done before, and tells what it resolves to.
    pub fn resolve(&mut self, sources: &SourceManager) -> (r: Option<ResolvedLocation>)
        requires
            sources.wf(),
            old(self)@.fits(sources@),
        ensures
            final(self)@ == old(self)@.resolved(sources@),
            crate::debug::source::resolved_view(r) == final(self)@.resolution(),
    {
        match self {
            OpDetail::Full { location, resolved, .. } => {
                if resolved.is_none() {
                    if let Some(l) = &*location {
                        let found = crate::debug::source::resolve_location(l, sources);
                        *resolved = Some(found);
                    }
                }
                match &*resolved {
                    Some(Some(r)) => Some(r.clone()),
                    _ => None,
                }
            },
            _ => None,
        }
    }
}

// ---------------------------------------------------------------------------------------------
// Call frames
// ---------------------------------------------------------------------------------------------

/// A procedure that is being run, with the operations it ran last.
#[derive(Debug)]
pub struct CallFrame {
    procedure: Option<String>,
    context: VecDeque<OpDetail>,
    display_name: Option<String>,
    finishing: bool,
}

/// What a [`CallFrame`] holds.
pub struct FrameView {
    /// The name of the procedure, where it is known.
    pub procedure: Option<Seq<char>>,
    /// The operations run last, the latest at the end.
    pub context: Seq<DetailView>,
    /// The name for display, once it was asked for.
    pub display_name: Option<Seq<char>>,
    /// Whether the debugger stops when the frame is left.
    pub finishing: bool,
}

/// The views of a sequence of entries.
pub open spec fn detail_views(details: Seq<OpDetail>) -> Seq<DetailView> {
    details.map_values(|d: OpDetail| d@)
}

impl View for CallFrame {
    type V = FrameView;

    closed spec fn view(&self) -> FrameView {
        FrameView {
            procedure: crate::debug::op::text_view(self.procedure),
            context: detail_views(self.context@),
            display_name: crate::debug::op::text_view(self.display_name),
            finishing: self.finishing,
        }
    }
}

/// The entries, without the oldest one where there is no room for another.
pub open spec fn with_room(context: Seq<DetailView>) -> Seq<DetailView> {
    if context.len() == CONTEXT_SIZE {
        context.skip(1)
    } else {
        context
    }
}

impl FrameView {
    /// A frame of which only the procedure is known.
    pub open spec fn fresh(procedure: Option<Seq<char>>) -> FrameView {
        FrameView { procedure, context: Seq::empty(), display_name: None, finishing: false }
    }

    /// A frame as a remote debugger describes it: a name, and where it stands.
    pub open spec fn remote(name: Option<Seq<char>>, at: Option<ResolvedView>) -> FrameView {
        FrameView {
            context: match at {
                Some(at) => seq![
                    DetailView::Full {
                        op: Operation { code: OP_NOOP, imm: 0 },
                        location: None,
                        resolved: Some(Some(at)),
                    },
                ],
                None => Seq::empty(),
            },
            ..FrameView::fresh(name)
        }
    }

    /// A frame never remembers more than its share of operations.
    pub open spec fn wf(self) -> bool {
        self.context.len() <= CONTEXT_SIZE
    }

    /// The frame after it entered another procedure.
    pub open spec fn entered(self, callee: Option<Seq<char>>) -> FrameView {
        FrameView { context: with_room(self.context).push(DetailView::Exec { callee }), ..self }
    }

    /// Whether an operation is the one remembered last.
    pub open spec fn repeats(self, op: Operation) -> bool {
        self.context.len() > 0 && self.context.last().operation() == Some(op)
    }

    /// The entry for an operation: its location is that of its instruction; an operation without
    /// an instruction takes over the location of the operation before it.
    pub open spec fn entry(self, op: Operation, asmop: Option<AssemblyOpView>) -> DetailView {
        match asmop {
            Some(asmop) => DetailView::Full { op, location: asmop.location, resolved: None },
            None => if with_room(self.context).len() > 0 {
                DetailView::Full { op, location: self.context.last().location(), resolved: None }
            } else {
                DetailView::Basic { op }
            },
        }
    }

    /// The frame after it ran an operation. Of an instruction that takes several cycles, an
    /// operation that only repeats the one before it is not remembered.
    pub open spec fn ran(self, op: Operation, cycle_idx: u8, asmop: Option<AssemblyOpView>) -> FrameView {
        if cycle_idx > 1 && self.repeats(op) {
            self
        } else {
            FrameView { context: with_room(self.context).push(self.entry(op, asmop)), ..self }
        }
    }

    /// The name for display: the one found first, whatever prefix it was asked for with.
    pub open spec fn name(self, prefix: Seq<char>) -> Option<Seq<char>> {
        match self.procedure {
            None => None,
            Some(procedure) => match self.display_name {
                Some(name) => Some(name),
                None => Some(shown_name(procedure, prefix)),
            },
        }
    }

    /// The frame after its name was asked for.
    pub open spec fn named(self, prefix: Seq<char>) -> FrameView {
        match self.procedure {
            None => self,
            Some(_) => FrameView { display_name: self.name(prefix), ..self },
        }
    }

    /// The location of the last operation. Where that entered a procedure, the one before it
    /// counts.
    pub open spec fn last_location(self) -> Option<LocationView> {
        let n = self.context.len();
        if n == 0 {
            None
        } else if self.context[n - 1] is Exec {
            if n >= 2 {
                self.context[n - 2].location()
            } else {
                None
            }
        } else {
            self.context[n - 1].location()
        }
    }

    /// Whether every location that is still to be resolved starts inside its source.
    pub open spec fn fits(self, sources: SourcesView) -> bool {
        forall|i: int| 0 <= i < self.context.len() ==> #[trigger] self.context[i].fits(sources)
    }

    /// The latest of the first `n` operations whose location can be resolved, resolved.
    pub open spec fn last_resolved_of(self, n: nat, sources: SourcesView) -> Option<ResolvedView>
        decreases n,
    {
        if n == 0 {
            None
        } else {
            match self.context[n - 1].resolved(sources).resolution() {
                Some(r) => Some(r),
                None => self.last_resolved_of((n - 1) as nat, sources),
            }
        }
    }

    /// The latest operation whose location can be resolved, resolved.
    pub open spec fn last_resolved(self, sources: SourcesView) -> Option<ResolvedView> {
        self.last_resolved_of(self.context.len(), sources)
    }

    /// The entries after the first `n` were searched, from the latest back, for one that can be
    /// resolved: those that were looked at stay resolved.
    pub open spec fn searched_of(self, n: nat, sources: SourcesView) -> Seq<DetailView>
        decreases n,
    {
        if n == 0 {
            self.context
        } else {
            let entry = self.context[n - 1].resolved(sources);
            let rest = if entry.resolution() is Some {
                self.context
            } else {
                self.searched_of((n - 1) as nat, sources)
            };
            rest.update(n - 1, entry)
        }
    }

    /// The frame after it was searched for an operation whose location can be resolved.
    pub open spec fn searched(self, sources: SourcesView) -> FrameView {
        FrameView { context: self.searched_of(self.context.len(), sources), ..self }
    }
}

/// A frame that a remote debugger describes stands where the debugger says, whatever sources are
/// known; and it has one entry to show for it.
pub proof fn a_remote_frame_shows_its_place(
    name: Option<Seq<char>>,
    at: Option<ResolvedView>,
    sources: SourcesView,
)
    ensures
        FrameView::remote(name, at).last_resolved(sources) == at,
        FrameView::remote(name, at).context.len() == (if at is Some {
            1nat
        } else {
            0nat
        }),
{
    reveal_with_fuel(FrameView::last_resolved_of, 2);
}

impl CallFrame {
    /// A frame of which only the procedure is known.
    pub fn new(procedure: Option<String>) -> (r: Self)
        ensures
            r@ == FrameView::fresh(crate::debug::op::text_view(procedure)),
    {
        let r = CallFrame {
            procedure,
            context: VecDeque::new(),
            display_name: None,
            finishing: false,
        };
        proof {
            assert(r@.context =~= Seq::<DetailView>::empty());
        }
        r
    }

    /// A frame as a remote debugger describes it: a name, and where it stands.
    pub fn from_remote(name: Option<String>, resolved: Option<ResolvedLocation>) -> (r: Self)
        ensures
            r@ == FrameView::remote(
                crate::debug::op::text_view(name),
                crate::debug::source::resolved_view(resolved),
            ),
    {
        let mut context: VecDeque<OpDetail> = VecDeque::new();
        if let Some(at) = resolved {
            context.push_back(
                OpDetail::Full {
                    op: Operation { code: OP_NOOP, imm: 0 },
                    location: None,
                    resolved: Some(Some(at)),
                },
            );
        }
        let r = CallFrame { procedure: name, context, display_name: None, finishing: false };
        proof {
            match crate::debug::source::resolved_view(resolved) {
                Some(at) => {
                    assert(r@.context =~= seq![
                        DetailView::Full {
                            op: Operation { code: OP_NOOP, imm: 0 },
                            location: None,
                            resolved: Some(Some(at)),
                        },
                    ]);
                },
                None => {
                    assert(r@.context =~= Seq::<DetailView>::empty());
                },
            }
        }
        r
    }

    /// The name of the procedure for display, without its module where that is `strip_prefix`. The
    /// name is made up on the first call and stays the same from then on.
    pub fn procedure(&mut self, strip_prefix: &str) -> (r: Option<String>)
        ensures
            crate::debug::op::text_view(r) == old(self)@.name(strip_prefix@),
            final(self)@ == old(self)@.named(strip_prefix@),
    {
        match &self.procedure {
            None => None,
            Some(procedure) => {
                let name = match &self.display_name {
                    Some(name) => name.clone(),
                    None => show_name(procedure.as_str(), strip_prefix),
                };
                self.display_name = Some(name.clone());
                Some(name)
            },
        }
    }

    fn make_room(&mut self)
        ensures
            final(self)@ == (FrameView { context: with_room(old(self)@.context), ..old(self)@ }),
    {
        if self.context.len() == CONTEXT_SIZE {
            self.context.pop_front();
            proof {
                assert(self@.context =~= old(self)@.context.skip(1));
            }
        }
    }

    fn remember(&mut self, detail: OpDetail)
        ensures
            final(self)@ == (FrameView { context: old(self)@.context.push(detail@), ..old(self)@ }),
    {
        self.context.push_back(detail);
        proof {
            assert(self@.context =~= old(self)@.context.push(detail@));
        }
    }

    /// Remembers that another procedure was entered.
    pub fn push_exec(&mut self, callee: Option<String>)
        requires
            old(self)@.wf(),
        ensures
            final(self)@.wf(),
            final(self)@ == old(self)@.entered(crate::debug::op::text_view(callee)),
    {
        self.make_room();
        self.remember(OpDetail::Exec { callee });
    }

    /// Remembers that an operation was run. `cycle_idx` tells how many cycles its instruction
    /// takes.
    pub fn push(&mut self, opcode: Operation, cycle_idx: u8, op: Option<&AssemblyOp>)
        requires
            old(self)@.wf(),
        ensures
            final(self)@.wf(),
            final(self)@ == old(self)@.ran(
                opcode,
                cycle_idx,
                match op {
                    Some(a) => Some(a@),
                    None => None,
                },
            ),
    {
        let count: usize = self.context.len();
        if cycle_idx > 1 && count > 0 {
            let repeated = match &self.context[count - 1] {
                OpDetail::Full { op, .. } => *op == opcode,
                OpDetail::Basic { op } => *op == opcode,
                OpDetail::Exec { .. } => false,
            };
            if repeated {
                return;
            }
        }
        proof {
            if count > 0 {
                assert(self@.context.last() == self.context@[count - 1]@);
            }
        }
        self.make_room();
        let detail = match op {
            Some(asmop) => OpDetail::Full {
                op: opcode,
                location: clone_location(&asmop.location),
                resolved: None,
            },
            None => {
                let kept: usize = self.context.len();
                if kept > 0 {
                    proof {
                        assert(self@.context.last() == self.context@[kept - 1]@);
                        assert(self@.context.last() == old(self)@.context.last());
                    }
                    let location = match &self.context[kept - 1] {
                        OpDetail::Full { location, .. } => clone_location(location),
                        _ => None,
                    };
                    OpDetail::Full { op: opcode, location, resolved: None }
                } else {
                    OpDetail::Basic { op: opcode }
                }
            },
        };
        self.remember(detail);
    }

    /// The location of the last operation. Where that entered a procedure, the one before it
    /// counts.
    pub fn last_location(&self) -> (r: Option<&Location>)
        ensures
            match r {
                Some(l) => self@.last_location() == Some(l@),
                None => self@.last_location() is None,
            },
    {
        let count: usize = self.context.len();
        if count == 0 {
            return None;
        }
        match &self.context[count - 1] {
            OpDetail::Full { location: Some(l), .. } => Some(l),
            OpDetail::Exec { .. } => if count >= 2 {
                self.context[count - 2].location()
            } else {
                None
            },
            _ => None,
        }
    }

    /// Whether every location that is still to be resolved starts inside its source.
    pub fn fits(&self, sources: &SourceManager) -> (r: bool)
        requires
            sources.wf(),
        ensures
            r == self@.fits(sources@),
    {
        let mut i: usize = 0;
        while i < self.context.len()
            invariant
                sources.wf(),
                i <= self.context@.len(),
                forall|j: int| 0 <= j < i ==> #[trigger] self@.context[j].fits(sources@),
            decreases self.context@.len() - i,
        {
            if !self.context[i].fits(sources) {
                assert(!self@.context[i as int].fits(sources@));
                return false;
            }
            i += 1;
        }
        true
    }

    /// The latest operation whose location can be resolved, resolved.
    pub fn last_resolved(&mut self, sources: &SourceManager) -> (r: Option<ResolvedLocation>)
        requires
            sources.wf(),
            old(self)@.fits(sources@),
        ensures
            crate::debug::source::resolved_view(r) == old(self)@.last_resolved(sources@),
            final(self)@ == old(self)@.searched(sources@),
    {
        let ghost start = self@;
        let count: usize = self.context.len();
        let mut kept: Vec<OpDetail> = Vec::new();
        let mut n: usize = count;
        let mut found: Option<ResolvedLocation> = None;
        while n > 0 && found.is_none()
            invariant
                sources.wf(),
                start.fits(sources@),
                n <= count == start.context.len(),
                self@.procedure == start.procedure,
                self@.display_name == start.display_name,
                self@.finishing == start.finishing,
                self@.context == start.context.take(n as int),
                kept@.len() == count - n,
                found is None ==> {
                    &&& start.last_resolved(sources@) == start.last_resolved_of(n as nat, sources@)
                    &&& start.searched_of(count as nat, sources@).take(n as int)
                        == start.searched_of(n as nat, sources@).take(n as int)
                },
                found is Some ==> {
                    &&& start.last_resolved(sources@) == crate::debug::source::resolved_view(found)
                    &&& start.searched_of(count as nat, sources@).take(n as int)
                        == start.context.take(n as int)
                },
                forall|j: int|
                    0 <= j < kept@.len() ==> #[trigger] kept@[j]@ == start.searched_of(
                        count as nat,
                        sources@,
                    )[count - 1 - j],
            decreases n,
        {
            proof {
                searched_len(start, n as nat, sources@);
                searched_len(start, count as nat, sources@);
                searched_len(start, (n - 1) as nat, sources@);
                let all = start.searched_of(count as nat, sources@);
                let here = start.searched_of(n as nat, sources@);
                assert(all.take(n as int)[n - 1] == here.take(n as int)[n - 1]);
                assert(all.take(n - 1) =~= all.take(n as int).take(n - 1));
                assert(here.take(n - 1) =~= here.take(n as int).take(n - 1));
                assert(start.context[n - 1].fits(sources@));
                assert(self@.context[n - 1] == start.context[n - 1]);
            }
            let ghost before = self.context@;
            let last = self.context.pop_back();
            proof {
                assert(detail_views(before) == start.context.take(n as int));
                assert(detail_views(before).len() == n);
                assert(before.len() == n);
                assert(detail_views(before.subrange(0, n - 1)) =~= start.context.take(
                    n as int,
                ).take(n - 1));
                assert(start.context.take(n as int).take(n - 1) =~= start.context.take(n - 1));
            }
            if let Some(mut entry) = last {
                found = entry.resolve(sources);
                kept.push(entry);
                n -= 1;
                proof {
                    let all = start.searched_of(count as nat, sources@);
                    let here = start.searched_of((n + 1) as nat, sources@);
                    if found is Some {
                        assert(here.take(n as int) =~= start.context.take(n as int));
                    } else {
                        assert(here.take(n as int) =~= start.searched_of(n as nat, sources@).take(
                            n as int,
                        ));
                    }
                }
            }
        }
        let ghost all = start.searched_of(count as nat, sources@);
        proof {
            searched_len(start, count as nat, sources@);
            searched_len(start, n as nat, sources@);
            if n == 0 {
                assert(self@.context =~= all.take(0));
            }
        }
        while n < count
            invariant
                n <= count,
                all.len() == count,
                kept@.len() == count - n,
                self@.procedure == start.procedure,
                self@.display_name == start.display_name,
                self@.finishing == start.finishing,
                self@.context == all.take(n as int),
                forall|j: int| 0 <= j < kept@.len() ==> #[trigger] kept@[j]@ == all[count - 1 - j],
            decreases count - n,
        {
            if let Some(entry) = kept.pop() {
                self.remember(entry);
                n += 1;
                proof {
                    assert(self@.context =~= all.take(n as int));
                }
            }
        }
        proof {
            assert(self@.context =~= all);
        }
        found
    }

    /// The operations run last, the latest at the end.
    pub fn recent(&self) -> (r: &VecDeque<OpDetail>)
        ensures
            detail_views(r@) == self@.context,
    {
        &self.context
    }

    /// Whether the debugger stops when the frame is left.
    pub fn should_break_on_exit(&self) -> (r: bool)
        ensures
            r == self@.finishing,
    {
        self.finishing
    }

    /// Makes the debugger stop when the frame is left.
    pub fn break_on_exit(&mut self)
        ensures
            final(self)@ == (FrameView { finishing: true, ..old(self)@ }),
    {
        self.finishing = true;
    }
}

/// Searching keeps the number of entries.
proof fn searched_len(frame: FrameView, n: nat, sources: SourcesView)
    requires
        n <= frame.context.len(),
    ensures
        frame.searched_of(n, sources).len() == frame.context.len(),
    decreases n,
{
    if n > 0 {
        searched_len(frame, (n - 1) as nat, sources);
    }
}

// ---------------------------------------------------------------------------------------------
// The call stack
// ---------------------------------------------------------------------------------------------

/// What happened in one cycle.
pub struct StepInfo<'a> {
    /// The operation that was run.
    pub op: Option<Operation>,
    /// The instruction the operation stems from.
    pub asmop: Option<&'a AssemblyOp>,
    /// The cycle.
    pub clk: u32,
    /// The execution context.
    pub ctx: u32,
}

impl<'a> StepInfo<'a> {
    /// The instruction the operation stems from.
    pub open spec fn asmop_view(&self) -> Option<AssemblyOpView> {
        match self.asmop {
            Some(a) => Some(a@),
            None => None,
        }
    }
}

/// Where a block of straight-line code belongs.
#[derive(Debug)]
struct SpanContext {
    frame_index: usize,
    location: Option<Location>,
}

/// What a block of straight-line code belongs to: the frame it began in, and its location.
pub struct SpanView {
    pub frame_index: nat,
    pub location: Option<LocationView>,
}

/// The call stack of a running program.
#[derive(Debug)]
pub struct CallStack {
    trace_events: BTreeMap<u32, TraceEvent>,
    contexts: Vec<String>,
    frames: Vec<CallFrame>,
    block_stack: Vec<Option<SpanContext>>,
}

/// What a [`CallStack`] holds.
pub struct StackView {
    /// What the virtual machine reported, by cycle.
    pub trace_events: Map<u32, TraceEvent>,
    /// The names of the procedures seen so far.
    pub contexts: Set<Seq<char>>,
    /// The frames, the innermost at the end.
    pub frames: Seq<FrameView>,
    /// The blocks that were entered and not left.
    pub block_stack: Seq<Option<SpanView>>,
}

/// The views of a sequence of frames.
pub open spec fn frame_views(frames: Seq<CallFrame>) -> Seq<FrameView> {
    frames.map_values(|f: CallFrame| f@)
}

spec fn span_views(blocks: Seq<Option<SpanContext>>) -> Seq<Option<SpanView>> {
    blocks.map_values(
        |b: Option<SpanContext>|
            match b {
                Some(c) => Some(
                    SpanView {
                        frame_index: c.frame_index as nat,
                        location: crate::debug::op::location_view(c.location),
                    },
                ),
                None => None,
            },
    )
}

spec fn name_views(names: Seq<String>) -> Seq<Seq<char>> {
    names.map_values(|n: String| n@)
}

impl View for CallStack {
    type V = StackView;

    closed spec fn view(&self) -> StackView {
        StackView {
            trace_events: self.trace_events@,
            contexts: name_views(self.contexts@).to_set(),
            frames: frame_views(self.frames@),
            block_stack: span_views(self.block_stack@),
        }
    }
}

impl StackView {
    /// No frame remembers more than its share of operations.
    pub open spec fn wf(self) -> bool {
        forall|i: int| 0 <= i < self.frames.len() ==> (#[trigger] self.frames[i]).wf()
    }

    /// The stack after the name of a procedure was seen.
    pub open spec fn knowing(self, procedure: Option<Seq<char>>) -> StackView {
        match procedure {
            Some(name) => StackView { contexts: self.contexts.insert(name), ..self },
            None => self,
        }
    }

    /// The event of a cycle.
    pub open spec fn event(self, clk: u32) -> Option<TraceEvent> {
        if self.trace_events.contains_key(clk) {
            Some(self.trace_events[clk])
        } else {
            None
        }
    }

    /// The stack after an event: a frame that starts is noted in its caller and goes on top, a
    /// frame that ends comes off.
    pub open spec fn after_event(
        self,
        event: Option<TraceEvent>,
        procedure: Option<Seq<char>>,
    ) -> StackView {
        let n = self.frames.len();
        match event {
            Some(TraceEvent::FrameStart) => {
                let callers = if n > 0 {
                    self.frames.update(n - 1, self.frames[n - 1].entered(procedure))
                } else {
                    self.frames
                };
                StackView { frames: callers.push(FrameView::fresh(procedure)), ..self }
            },
            Some(TraceEvent::FrameEnd) => if n > 0 {
                StackView { frames: self.frames.drop_last(), ..self }
            } else {
                self
            },
            _ => self,
        }
    }

    /// The frame that an event ends.
    pub open spec fn ended_by(self, event: Option<TraceEvent>) -> Option<FrameView> {
        if event == Some(TraceEvent::FrameEnd) && self.frames.len() > 0 {
            Some(self.frames.last())
        } else {
            None
        }
    }

    /// The stack after an operation opened or closed a block.
    pub open spec fn after_block(self, op: Operation, asmop: Option<AssemblyOpView>) -> StackView {
        let n = self.frames.len();
        let blocks = if op.code == OP_SPAN {
            self.block_stack.push(
                match asmop {
                    Some(asmop) => Some(
                        SpanView {
                            frame_index: if n > 0 {
                                (n - 1) as nat
                            } else {
                                0
                            },
                            location: asmop.location,
                        },
                    ),
                    None => None,
                },
            )
        } else if op.code == OP_END && self.block_stack.len() > 0 {
            self.block_stack.drop_last()
        } else if op.code == OP_JOIN || op.code == OP_SPLIT {
            self.block_stack.push(None)
        } else {
            self.block_stack
        };
        StackView { block_stack: blocks, ..self }
    }

    /// The block that is being run, where it is known what it belongs to.
    pub open spec fn block(self) -> Option<SpanView> {
        if self.block_stack.len() > 0 {
            self.block_stack.last()
        } else {
            None
        }
    }

    /// The procedure that the current block belongs to.
    pub open spec fn block_procedure(self) -> Option<Seq<char>> {
        match self.block() {
            Some(span) => if span.frame_index < self.frames.len() {
                self.frames[span.frame_index as int].procedure
            } else {
                None
            },
            None => None,
        }
    }

    /// The procedure of the innermost frame.
    pub open spec fn frame_procedure(self) -> Option<Seq<char>> {
        if self.frames.len() > 0 {
            self.frames.last().procedure
        } else {
            None
        }
    }

    /// The procedure that an operation belongs to: that of its instruction, else that of the block
    /// it stands in, else that of the innermost frame.
    pub open spec fn procedure_of(self, procedure: Option<Seq<char>>) -> Option<Seq<char>> {
        if procedure is Some {
            procedure
        } else if self.block_procedure() is Some {
            self.block_procedure()
        } else {
            self.frame_procedure()
        }
    }

    /// The instruction that an operation belongs to: its own, else one made up from the block it
    /// stands in, where it is known what that belongs to.
    pub open spec fn asmop_of(
        self,
        op: Operation,
        asmop: Option<AssemblyOpView>,
    ) -> Option<AssemblyOpView> {
        match (asmop, self.block()) {
            (Some(asmop), _) => Some(asmop),
            (None, Some(span)) => Some(
                AssemblyOpView {
                    location: span.location,
                    context_name: match self.block_procedure() {
                        Some(name) => name,
                        None => "<unknown>"@,
                    },
                    num_cycles: 1,
                    op: op.printed(),
                },
            ),
            (None, None) => None,
        }
    }

    /// The stack with at least one frame.
    pub open spec fn with_frame(self, procedure: Option<Seq<char>>) -> StackView {
        if self.frames.len() == 0 {
            StackView { frames: seq![FrameView::fresh(procedure)], ..self }
        } else {
            self
        }
    }

    /// The stack after an operation was run in the innermost frame. A frame whose procedure was
    /// not known takes the procedure of the operation, and so does the entry of its caller that
    /// tells which procedure was entered.
    pub open spec fn after_run(
        self,
        op: Operation,
        cycles: u8,
        asmop: Option<AssemblyOpView>,
        procedure: Option<Seq<char>>,
    ) -> StackView {
        let n = self.frames.len();
        let top = self.frames[n - 1];
        let learned = top.procedure is None && procedure is Some;
        let known = if learned {
            FrameView { procedure, ..top }
        } else {
            top
        };
        let ran = if op.code == OP_NOOP {
            known
        } else {
            known.ran(op, cycles, asmop)
        };
        let frames = self.frames.update(n - 1, ran);
        if learned && n > 1 {
            StackView { frames: frames.update(n - 2, frames[n - 2].calling(procedure)), ..self }
        } else {
            StackView { frames, ..self }
        }
    }

    /// The stack after a cycle in which `op` was run.
    pub open spec fn after_op(
        self,
        op: Operation,
        asmop: Option<AssemblyOpView>,
        clk: u32,
    ) -> StackView {
        let procedure = match asmop {
            Some(asmop) => Some(asmop.context_name),
            None => None,
        };
        let event = self.event(clk);
        let opened = self.knowing(procedure).after_event(event, procedure).after_block(op, asmop);
        if op.is_structural() || self.ended_by(event) is Some {
            opened
        } else {
            let belongs = opened.procedure_of(procedure);
            let cycles = match asmop {
                Some(asmop) => asmop.num_cycles,
                None => 1,
            };
            opened.with_frame(belongs).after_run(op, cycles, opened.asmop_of(op, asmop), belongs)
        }
    }

    /// The stack after a cycle.
    pub open spec fn after(
        self,
        op: Option<Operation>,
        asmop: Option<AssemblyOpView>,
        clk: u32,
    ) -> StackView {
        match op {
            Some(op) => self.after_op(op, asmop, clk),
            None => self,
        }
    }
}

impl FrameView {
    /// The frame, with its last entry telling that `procedure` was entered, where that was not
    /// known.
    pub open spec fn calling(self, procedure: Option<Seq<char>>) -> FrameView {
        let n = self.context.len();
        if n > 0 && self.context[n - 1] == (DetailView::Exec { callee: None }) {
            FrameView {
                context: self.context.update(n - 1, DetailView::Exec { callee: procedure }),
                ..self
            }
        } else {
            self
        }
    }
}

impl CallFrame {
    fn name_callee(&mut self, callee: Option<String>)
        ensures
            final(self)@ == old(self)@.calling(crate::debug::op::text_view(callee)),
    {
        let count: usize = self.context.len();
        if count > 0 {
            proof {
                assert(self@.context[count - 1] == self.context@[count - 1]@);
            }
            let unknown = match &self.context[count - 1] {
                OpDetail::Exec { callee: None } => true,
                _ => false,
            };
            if unknown {
                self.context.pop_back();
                self.context.push_back(OpDetail::Exec { callee });
                proof {
                    assert(self@.context =~= old(self)@.context.update(
                        count - 1,
                        DetailView::Exec { callee: crate::debug::op::text_view(callee) },
                    ));
                }
            }
        }
    }
}

impl CallStack {
    /// An empty call stack, with what the virtual machine has reported so far.
    pub fn new(trace_events: BTreeMap<u32, TraceEvent>) -> (r: Self)
        ensures
            r@.wf(),
            r@.trace_events == trace_events@,
            r@.contexts == Set::<Seq<char>>::empty(),
            r@.frames == Seq::<FrameView>::empty(),
            r@.block_stack == Seq::<Option<SpanView>>::empty(),
    {
        CallStack::with_frames(trace_events, Vec::new())
    }

    fn with_frames(trace_events: BTreeMap<u32, TraceEvent>, frames: Vec<CallFrame>) -> (r: Self)
        ensures
            r@.trace_events == trace_events@,
            r@.contexts == Set::<Seq<char>>::empty(),
            r@.frames == frame_views(frames@),
            r@.block_stack == Seq::<Option<SpanView>>::empty(),
    {
        let r = CallStack {
            trace_events,
            contexts: Vec::new(),
            frames,
            block_stack: Vec::new(),
        };
        proof {
            assert(r@.contexts =~= Set::<Seq<char>>::empty());
            assert(r@.block_stack =~= Seq::<Option<SpanView>>::empty());
        }
        r
    }

    /// A call stack of frames that a remote debugger describes.
    pub fn from_remote_frames(frames: Vec<CallFrame>) -> (r: Self)
        ensures
            r@.trace_events == Map::<u32, TraceEvent>::empty(),
            r@.contexts == Set::<Seq<char>>::empty(),
            r@.frames == frame_views(frames@),
            r@.block_stack == Seq::<Option<SpanView>>::empty(),
    {
        CallStack::with_frames(BTreeMap::new(), frames)
    }

    /// Notes what the virtual machine reported in a cycle.
    pub fn record_event(&mut self, clk: u32, event: TraceEvent)
        ensures
            final(self)@ == (StackView {
                trace_events: old(self)@.trace_events.insert(clk, event),
                ..old(self)@
            }),
    {
        broadcast use vstd::std_specs::btree::group_btree_axioms;

        self.trace_events.insert(clk, event);
    }

    /// The innermost frame.
    pub fn current_frame(&self) -> (r: Option<&CallFrame>)
        ensures
            match r {
                Some(f) => self@.frames.len() > 0 && f@ == self@.frames.last(),
                None => self@.frames.len() == 0,
            },
    {
        let count: usize = self.frames.len();
        if count == 0 {
            None
        } else {
            Some(&self.frames[count - 1])
        }
    }

    /// The innermost frame, to be changed.
    pub fn current_frame_mut(&mut self) -> (r: Option<&mut CallFrame>)
        ensures
            match r {
                Some(f) => {
                    &&& old(self)@.frames.len() > 0
                    &&& f@ == old(self)@.frames.last()
                    &&& final(self)@ == (StackView {
                        frames: old(self)@.frames.update(
                            old(self)@.frames.len() - 1,
                            final(f)@,
                        ),
                        ..old(self)@
                    })
                },
                None => old(self)@.frames.len() == 0 && final(self)@ == old(self)@,
            },
    {
        let count: usize = self.frames.len();
        if count == 0 {
            None
        } else {
            let ghost start = self.frames@;
            let top = &mut self.frames[count - 1];
            proof {
                assert(frame_views(start.update(count - 1, *final(top))) =~= frame_views(
                    start,
                ).update(count - 1, final(top)@));
            }
            Some(top)
        }
    }

    /// The frames, the innermost at the end.
    pub fn frames(&self) -> (r: &[CallFrame])
        ensures
            frame_views(r@) == self@.frames,
    {
        self.frames.as_slice()
    }

    fn cache_procedure_name(&mut self, context_name: &String)
        ensures
            final(self)@ == old(self)@.knowing(Some(context_name@)),
    {
        let ghost start = name_views(self.contexts@);
        let mut i: usize = 0;
        while i < self.contexts.len()
            invariant
                self == old(self),
                start == name_views(self.contexts@),
                i <= self.contexts@.len(),
            decreases self.contexts@.len() - i,
        {
            if self.contexts[i] == *context_name {
                proof {
                    assert(start[i as int] == context_name@);
                    assert(start.to_set().insert(context_name@) =~= start.to_set());
                }
                return;
            }
            i += 1;
        }
        self.contexts.push(context_name.clone());
        proof {
            let now = name_views(self.contexts@);
            assert(now =~= start.push(context_name@));
            assert(now.to_set() =~= start.to_set().insert(context_name@)) by {
                assert forall|x: Seq<char>| start.to_set().insert(context_name@).contains(x) implies now.contains(x) by {
                    if x == context_name@ {
                        assert(now[start.len() as int] == x);
                    } else {
                        let k = choose|k: int| 0 <= k < start.len() && start[k] == x;
                        assert(now[k] == x);
                    }
                }
            }
        }
    }

    fn handle_trace_event(
        &mut self,
        event: Option<TraceEvent>,
        procedure: &Option<String>,
    ) -> (r: Option<CallFrame>)
        requires
            old(self)@.wf(),
        ensures
            final(self)@.wf(),
            final(self)@ == old(self)@.after_event(
                event,
                crate::debug::op::text_view(*procedure),
            ),
            match r {
                Some(f) => old(self)@.ended_by(event) == Some(f@),
                None => old(self)@.ended_by(event) is None,
            },
    {
        match event {
            Some(TraceEvent::FrameStart) => {
                let count: usize = self.frames.len();
                if count > 0 {
                    proof {
                        assert(self@.frames[count - 1].wf());
                    }
                    self.frames[count - 1].push_exec(clone_text(procedure));
                    proof {
                        assert(self@.frames =~= old(self)@.frames.update(
                            count - 1,
                            old(self)@.frames[count - 1].entered(
                                crate::debug::op::text_view(*procedure),
                            ),
                        ));
                    }
                }
                let ghost callers = self@.frames;
                self.frames.push(CallFrame::new(clone_text(procedure)));
                proof {
                    assert(self@.frames =~= callers.push(
                        FrameView::fresh(crate::debug::op::text_view(*procedure)),
                    ));
                }
                None
            },
            Some(TraceEvent::FrameEnd) => {
                let last = self.frames.pop();
                proof {
                    if last is Some {
                        assert(self@.frames =~= old(self)@.frames.drop_last());
                    }
                }
                last
            },
            _ => None,
        }
    }

    fn update_blocks(&mut self, op: Operation, asmop: Option<&AssemblyOp>)
        ensures
            final(self)@ == old(self)@.after_block(
                op,
                match asmop {
                    Some(a) => Some(a@),
                    None => None,
                },
            ),
    {
        let ghost before = self@.block_stack;
        if op.code == OP_SPAN {
            let count: usize = self.frames.len();
            let block = match asmop {
                Some(asmop) => Some(
                    SpanContext {
                        frame_index: if count > 0 {
                            count - 1
                        } else {
                            0
                        },
                        location: clone_location(&asmop.location),
                    },
                ),
                None => None,
            };
            self.block_stack.push(block);
            proof {
                assert(self@.block_stack =~= before.push(self@.block_stack.last()));
            }
        } else if op.code == OP_END {
            let last = self.block_stack.pop();
            proof {
                if last is Some {
                    assert(self@.block_stack =~= before.drop_last());
                }
            }
        } else if op.code == OP_JOIN || op.code == OP_SPLIT {
            self.block_stack.push(None);
            proof {
                assert(self@.block_stack =~= before.push(None));
            }
        }
    }

    /// The procedure and the instruction that an operation belongs to.
    fn owner(&self, op: Operation, asmop: Option<&AssemblyOp>, procedure: &Option<String>) -> (r: (
        Option<String>,
        Option<AssemblyOp>,
    ))
        requires
            *procedure is None == asmop is None,
        ensures
            ({
                let asmop_view = match asmop {
                    Some(a) => Some(a@),
                    None => None,
                };
                &&& crate::debug::op::text_view(r.0) == self@.procedure_of(
                    crate::debug::op::text_view(*procedure),
                )
                &&& crate::debug::op::asmop_view(r.1) == self@.asmop_of(op, asmop_view)
            }),
    {
        if let Some(asmop) = asmop {
            return (clone_text(procedure), Some(asmop.clone()));
        }
        let count: usize = self.frames.len();
        let blocks: usize = self.block_stack.len();
        let mut found: Option<String> = None;
        let mut made: Option<AssemblyOp> = None;
        if blocks > 0 {
            proof {
                assert(self@.block_stack.last() == span_views(self.block_stack@)[blocks - 1]);
            }
            if let Some(span) = &self.block_stack[blocks - 1] {
                if span.frame_index < count {
                    proof {
                        assert(self@.frames[span.frame_index as int]
                            == self.frames@[span.frame_index as int]@);
                    }
                    found = clone_text(&self.frames[span.frame_index].procedure);
                }
                let context_name = match &found {
                    Some(name) => name.clone(),
                    None => "<unknown>".to_owned(),
                };
                made = Some(
                    AssemblyOp::new(clone_location(&span.location), context_name, 1, op.text()),
                );
            }
        }
        if found.is_none() && count > 0 {
            proof {
                assert(self@.frames.last() == self.frames@[count - 1]@);
            }
            found = clone_text(&self.frames[count - 1].procedure);
        }
        (found, made)
    }

    fn run(
        &mut self,
        op: Operation,
        cycles: u8,
        asmop: Option<&AssemblyOp>,
        procedure: Option<String>,
    )
        requires
            old(self)@.wf(),
            old(self)@.frames.len() > 0,
        ensures
            final(self)@.wf(),
            final(self)@ == old(self)@.after_run(
                op,
                cycles,
                match asmop {
                    Some(a) => Some(a@),
                    None => None,
                },
                crate::debug::op::text_view(procedure),
            ),
    {
        let count: usize = self.frames.len();
        let top: usize = count - 1;
        let ghost start = self@.frames;
        proof {
            assert(start[top as int] == self.frames@[top as int]@);
            assert(start[top as int].wf());
        }
        let learned = self.frames[top].procedure.is_none() && procedure.is_some();
        if learned {
            self.frames[top].procedure = clone_text(&procedure);
        }
        proof {
            assert(self@.frames =~= start.update(
                top as int,
                if learned {
                    FrameView {
                        procedure: crate::debug::op::text_view(procedure),
                        ..start[top as int]
                    }
                } else {
                    start[top as int]
                },
            ));
        }
        if op.code != OP_NOOP {
            self.frames[top].push(op, cycles, asmop);
        }
        let ghost ran = self@.frames;
        proof {
            assert(ran =~= start.update(top as int, ran[top as int]));
        }
        if learned && count > 1 {
            let caller: usize = count - 2;
            self.frames[caller].name_callee(procedure);
            proof {
                assert(self@.frames =~= ran.update(
                    caller as int,
                    ran[caller as int].calling(crate::debug::op::text_view(procedure)),
                ));
                assert(start[caller as int].wf());
            }
        }
    }

    /// Brings the call stack up to date with a cycle. Returns the frame that was left in it.
    pub fn next(&mut self, info: &StepInfo<'_>) -> (r: Option<CallFrame>)
        requires
            old(self)@.wf(),
        ensures
            final(self)@.wf(),
            final(self)@ == old(self)@.after(info.op, info.asmop_view(), info.clk),
            match r {
                Some(f) => info.op is Some && old(self)@.ended_by(old(self)@.event(info.clk))
                    == Some(f@),
                None => info.op is None || old(self)@.ended_by(old(self)@.event(info.clk)) is None,
            },
    {
        broadcast use vstd::std_specs::btree::group_btree_axioms;

        let op = match info.op {
            Some(op) => op,
            None => {
                return None;
            },
        };
        let procedure = match info.asmop {
            Some(asmop) => {
                self.cache_procedure_name(&asmop.context_name);
                Some(asmop.context_name.clone())
            },
            None => None,
        };
        let event = match self.trace_events.get(&info.clk) {
            Some(event) => Some(*event),
            None => None,
        };
        let ghost known = self@;
        let ended = self.handle_trace_event(event, &procedure);
        self.update_blocks(op, info.asmop);
        if op.structural() || ended.is_some() {
            return ended;
        }
        let (belongs, asmop) = self.owner(op, info.asmop, &procedure);
        if self.frames.len() == 0 {
            self.frames.push(CallFrame::new(clone_text(&belongs)));
            proof {
                assert(self@.frames =~= seq![
                    FrameView::fresh(crate::debug::op::text_view(belongs)),
                ]);
            }
        }
        let cycles: u8 = match info.asmop {
            Some(asmop) => asmop.num_cycles,
            None => 1,
        };
        self.run(op, cycles, asmop.as_ref(), belongs);
        None
    }
}

// ---------------------------------------------------------------------------------------------
// Stack traces
// ---------------------------------------------------------------------------------------------

/// Where the program stands.
#[derive(Debug)]
pub struct CurrentFrame {
    pub procedure: Option<String>,
    pub location: Option<ResolvedLocation>,
}

/// A stack trace: where the program stands, and the text that shows how it got there.
#[derive(Debug)]
pub struct StackTrace {
    pub current_frame: Option<CurrentFrame>,
}

impl FrameView {
    /// The frame after it was shown.
    pub open spec fn shown(self, sources: SourcesView) -> FrameView {
        self.named(""@).searched(sources)
    }

    /// The name of the frame and where it stands.
    pub open spec fn headline(self, is_top: bool, sources: SourcesView) -> Seq<char> {
        (if is_top {
            " `-> "@
        } else {
            " |-> "@
        }) + (match self.name(""@) {
            Some(name) => name,
            None => "<unknown>"@,
        }) + (match self.last_resolved(sources) {
            Some(r) => " in "@ + r.printed(),
            None => " in <unavailable>"@,
        })
    }
}

/// The line for an operation of the innermost frame.
pub open spec fn context_line(entry: DetailView, is_last: bool) -> Seq<char> {
    " |   "@ + (match entry.callee(""@) {
        Some(callee) => "exec."@ + callee,
        None => entry.printed(),
    }) + (if is_last {
        "\n `-> <error occured here>\n"@
    } else {
        "\n"@
    })
}

/// The lines for the first `n` operations of the innermost frame.
pub open spec fn context_lines(context: Seq<DetailView>, n: nat) -> Seq<char>
    decreases n,
{
    if n == 0 {
        Seq::empty()
    } else {
        context_lines(context, (n - 1) as nat) + context_line(
            context[n - 1],
            n == context.len(),
        )
    }
}

/// The lines for the first `n` operations of those run last, in whatever frame.
pub open spec fn recent_lines(recent: Seq<Operation>, n: nat) -> Seq<char>
    decreases n,
{
    if n == 0 {
        Seq::empty()
    } else {
        recent_lines(recent, (n - 1) as nat) + " |   "@ + recent[n - 1].printed() + (if n
            == recent.len() {
            "\n `-> <error occured here>\n"@
        } else {
            "\n"@
        })
    }
}

/// What is shown of the innermost frame below its headline.
pub open spec fn details_text(frame: FrameView, recent: Seq<Operation>) -> Seq<char> {
    ":\n\nLast "@ + crate::text::decimal(frame.context.len())
        + " Instructions (of current frame):\n"@ + context_lines(
        frame.context,
        frame.context.len(),
    ) + "\n\nLast "@ + crate::text::decimal(recent.len()) + " Instructions (any frame):\n"@
        + recent_lines(recent, recent.len())
}

/// What is shown of the first `n` frames.
pub open spec fn frames_text(
    frames: Seq<FrameView>,
    n: nat,
    recent: Seq<Operation>,
    sources: SourcesView,
) -> Seq<char>
    decreases n,
{
    if n == 0 {
        Seq::empty()
    } else {
        let is_top = n == frames.len();
        frames_text(frames, (n - 1) as nat, recent, sources) + frames[n - 1].headline(
            is_top,
            sources,
        ) + (if is_top {
            details_text(frames[n - 1], recent)
        } else {
            "\n"@
        })
    }
}

impl StackView {
    /// Whether every location that is still to be resolved starts inside its source.
    pub open spec fn fits(self, sources: SourcesView) -> bool {
        forall|i: int| 0 <= i < self.frames.len() ==> (#[trigger] self.frames[i]).fits(sources)
    }

    /// The text of the stack trace.
    pub open spec fn trace_text(self, recent: Seq<Operation>, sources: SourcesView) -> Seq<char> {
        "\nStack Trace:\n"@ + frames_text(self.frames, self.frames.len(), recent, sources)
    }
}

fn context_text(context: &VecDeque<OpDetail>) -> (r: String)
    ensures
        r@ == context_lines(detail_views(context@), context@.len()),
{
    let count: usize = context.len();
    let mut out = String::new();
    let mut i: usize = 0;
    while i < count
        invariant
            i <= count == context@.len(),
            out@ == context_lines(detail_views(context@), i as nat),
        decreases count - i,
    {
        let ghost before = out@;
        let mut line = " |   ".to_owned();
        match context[i].callee("") {
            Some(callee) => {
                line.append(crate::text::concat("exec.", callee.as_str()).as_str());
            },
            None => {
                line.append(context[i].opcode().text().as_str());
            },
        }
        i += 1;
        if i == count {
            line.append("\n `-> <error occured here>\n");
        } else {
            line.append("\n");
        }
        out.append(line.as_str());
        proof {
            assert(detail_views(context@)[i - 1] == context@[i - 1]@);
            assert(line@ =~= context_line(detail_views(context@)[i - 1], i == context@.len()));
        }
    }
    out
}

fn recent_text(recent: &VecDeque<Operation>) -> (r: String)
    ensures
        r@ == recent_lines(recent@, recent@.len()),
{
    let count: usize = recent.len();
    let mut out = String::new();
    let mut i: usize = 0;
    while i < count
        invariant
            i <= count == recent@.len(),
            out@ == recent_lines(recent@, i as nat),
        decreases count - i,
    {
        out.append(" |   ");
        out.append(recent[i].text().as_str());
        i += 1;
        if i == count {
            out.append("\n `-> <error occured here>\n");
        } else {
            out.append("\n");
        }
    }
    out
}

impl CallStack {
    /// Whether every location that is still to be resolved starts inside its source.
    pub fn fits(&self, sources: &SourceManager) -> (r: bool)
        requires
            sources.wf(),
        ensures
            r == self@.fits(sources@),
    {
        let mut i: usize = 0;
        while i < self.frames.len()
            invariant
                sources.wf(),
                i <= self.frames@.len(),
                forall|j: int| 0 <= j < i ==> (#[trigger] self@.frames[j]).fits(sources@),
            decreases self.frames@.len() - i,
        {
            if !self.frames[i].fits(sources) {
                assert(!self@.frames[i as int].fits(sources@));
                return false;
            }
            i += 1;
        }
        true
    }

    /// The stack trace of the program as it stands.
    pub fn stacktrace(&mut self, sources: &SourceManager) -> (r: StackTrace)
        requires
            sources.wf(),
            old(self)@.fits(sources@),
        ensures
            r.shows(old(self)@, sources@),
            final(self)@ == old(self)@.with_top_shown(sources@),
    {
        StackTrace::new(self, sources)
    }
}

impl StackView {
    /// The stack after its innermost frame was shown.
    pub open spec fn with_top_shown(self, sources: SourcesView) -> StackView {
        let n = self.frames.len();
        if n == 0 {
            self
        } else {
            StackView {
                frames: self.frames.update(n - 1, self.frames[n - 1].shown(sources)),
                ..self
            }
        }
    }

    /// The stack after all of its frames were shown.
    pub open spec fn all_shown(self, sources: SourcesView) -> StackView {
        StackView { frames: self.frames.map_values(|f: FrameView| f.shown(sources)), ..self }
    }
}

impl StackTrace {
    /// Whether the trace tells where the program with this call stack stands.
    pub open spec fn shows(&self, stack: StackView, sources: SourcesView) -> bool {
        match self.current_frame {
            Some(current) => {
                &&& stack.frames.len() > 0
                &&& crate::debug::op::text_view(current.procedure) == stack.frames.last().name(""@)
                &&& crate::debug::source::resolved_view(current.location)
                    == stack.frames.last().last_resolved(sources)
            },
            None => stack.frames.len() == 0,
        }
    }

    /// The stack trace of a program with this call stack.
    pub fn new(callstack: &mut CallStack, sources: &SourceManager) -> (r: Self)
        requires
            sources.wf(),
            old(callstack)@.fits(sources@),
        ensures
            r.shows(old(callstack)@, sources@),
            final(callstack)@ == old(callstack)@.with_top_shown(sources@),
    {
        let count: usize = callstack.frames.len();
        if count == 0 {
            return StackTrace { current_frame: None };
        }
        let top: usize = count - 1;
        let ghost start = callstack@.frames;
        proof {
            assert(start[top as int] == callstack.frames@[top as int]@);
            assert(start[top as int].fits(sources@));
        }
        let location = callstack.frames[top].last_resolved(sources);
        let procedure = callstack.frames[top].procedure("");
        proof {
            same_resolution(start[top as int], sources@);
            assert(callstack@.frames =~= start.update(top as int, start[top as int].shown(sources@)));
        }
        StackTrace { current_frame: Some(CurrentFrame { procedure, location }) }
    }

    /// Where the program stands.
    pub fn current_frame(&self) -> (r: Option<&CurrentFrame>)
        ensures
            match r {
                Some(f) => self.current_frame == Some(*f),
                None => self.current_frame is None,
            },
    {
        self.current_frame.as_ref()
    }

    /// The text of the stack trace: a line for each frame, the operations that the innermost frame
    /// ran last, and the operations run last in whatever frame.
    pub fn display(
        &self,
        callstack: &mut CallStack,
        recent: &VecDeque<Operation>,
        sources: &SourceManager,
    ) -> (r: String)
        requires
            sources.wf(),
            old(callstack)@.fits(sources@),
        ensures
            r@ == old(callstack)@.trace_text(recent@, sources@),
            final(callstack)@ == old(callstack)@.all_shown(sources@),
    {
        let ghost start = callstack@;
        let count: usize = callstack.frames.len();
        let mut out = "\nStack Trace:\n".to_owned();
        let mut i: usize = 0;
        proof {
            assert(out@ =~= "\nStack Trace:\n"@ + frames_text(start.frames, 0, recent@, sources@));
        }
        while i < count
            invariant
                sources.wf(),
                start.fits(sources@),
                i <= count == start.frames.len(),
                callstack@.trace_events == start.trace_events,
                callstack@.contexts == start.contexts,
                callstack@.block_stack == start.block_stack,
                callstack@.frames.len() == count,
                forall|j: int|
                    0 <= j < i ==> #[trigger] callstack@.frames[j] == start.frames[j].shown(sources@),
                forall|j: int|
                    i <= j < count ==> #[trigger] callstack@.frames[j] == start.frames[j],
                out@ == "\nStack Trace:\n"@ + frames_text(
                    start.frames,
                    i as nat,
                    recent@,
                    sources@,
                ),
            decreases count - i,
        {
            let ghost at = i as int;
            let ghost before = callstack@.frames;
            let ghost text = out@;
            proof {
                assert(callstack@.frames[at] == start.frames[at]);
                assert(callstack.frames@[at]@ == start.frames[at]);
                assert(start.frames[at].fits(sources@));
            }
            let is_top = i + 1 == count;
            let name = callstack.frames[i].procedure("");
            let resolved = callstack.frames[i].last_resolved(sources);
            let mut line = if is_top {
                " `-> ".to_owned()
            } else {
                " |-> ".to_owned()
            };
            match &name {
                Some(name) => {
                    line.append(name.as_str());
                },
                None => {
                    line.append("<unknown>");
                },
            }
            match &resolved {
                Some(resolved) => {
                    line.append(crate::text::concat(" in ", resolved.text().as_str()).as_str());
                },
                None => {
                    line.append(" in <unavailable>");
                },
            }
            proof {
                same_resolution(start.frames[at], sources@);
                assert(line@ =~= start.frames[at].headline(is_top, sources@));
                assert(callstack@.frames =~= before.update(at, start.frames[at].shown(sources@)));
            }
            out.append(line.as_str());
            if is_top {
                proof {
                    shown_context(start.frames[at], sources@);
                }
                let frame = &callstack.frames[i];
                let mut details = ":\n\nLast ".to_owned();
                details.append(crate::text::render_usize(frame.context.len()).as_str());
                details.append(" Instructions (of current frame):\n");
                details.append(context_text(&frame.context).as_str());
                details.append("\n\nLast ");
                details.append(crate::text::render_usize(recent.len()).as_str());
                details.append(" Instructions (any frame):\n");
                details.append(recent_text(recent).as_str());
                proof {
                    assert(details@ =~= details_text(start.frames[at], recent@));
                }
                out.append(details.as_str());
            } else {
                out.append("\n");
            }
            i += 1;
            proof {
                assert(out@ =~= "\nStack Trace:\n"@ + frames_text(
                    start.frames,
                    i as nat,
                    recent@,
                    sources@,
                ));
            }
        }
        proof {
            assert(callstack@.frames =~= start.all_shown(sources@).frames);
        }
        out
    }
}

/// Naming a frame does not touch what it resolves to.
proof fn same_resolution(frame: FrameView, sources: SourcesView)
    ensures
        frame.named(""@).context == frame.context,
        frame.named(""@).last_resolved(sources) == frame.last_resolved(sources),
        frame.named(""@).fits(sources) == frame.fits(sources),
        frame.searched(sources).named(""@) == frame.shown(sources),
{
    same_resolution_of(frame, frame.context.len(), sources);
}

proof fn same_resolution_of(frame: FrameView, n: nat, sources: SourcesView)
    ensures
        frame.named(""@).last_resolved_of(n, sources) == frame.last_resolved_of(n, sources),
        frame.named(""@).searched_of(n, sources) == frame.searched_of(n, sources),
    decreases n,
{
    if n > 0 {
        same_resolution_of(frame, (n - 1) as nat, sources);
    }
}

/// A frame that was shown prints the same entries.
proof fn shown_context(frame: FrameView, sources: SourcesView)
    ensures
        frame.shown(sources).context.len() == frame.context.len(),
        context_lines(frame.shown(sources).context, frame.context.len()) == context_lines(
            frame.context,
            frame.context.len(),
        ),
{
    let named = frame.named(""@);
    searched_len(named, named.context.len(), sources);
    shown_entries(named, named.context.len(), sources);
    shown_lines(frame.shown(sources).context, frame.context, frame.context.len());
}

/// Searching leaves the operations and the callees as they are.
proof fn shown_entries(frame: FrameView, n: nat, sources: SourcesView)
    requires
        n <= frame.context.len(),
    ensures
        forall|i: int|
            0 <= i < frame.context.len() ==> {
                let entry = #[trigger] frame.searched_of(n, sources)[i];
                &&& entry.callee(""@) == frame.context[i].callee(""@)
                &&& entry.printed() == frame.context[i].printed()
            },
    decreases n,
{
    if n > 0 {
        searched_len(frame, (n - 1) as nat, sources);
        shown_entries(frame, (n - 1) as nat, sources);
    }
}

proof fn shown_lines(a: Seq<DetailView>, b: Seq<DetailView>, n: nat)
    requires
        a.len() == b.len(),
        n <= a.len(),
        forall|i: int|
            0 <= i < a.len() ==> {
                &&& (#[trigger] a[i]).callee(""@) == b[i].callee(""@)
                &&& a[i].printed() == b[i].printed()
            },
    ensures
        context_lines(a, n) == context_lines(b, n),
    decreases n,
{
    if n > 0 {
        shown_lines(a, b, (n - 1) as nat);
        assert(a[n - 1].callee(""@) == b[n - 1].callee(""@));
    }
}

/// Showing the innermost frame leaves the other locations as they are, and those that were resolved
/// need no source.
pub proof fn top_shown_fits(stack: StackView, sources: SourcesView)
    requires
        stack.fits(sources),
    ensures
        stack.with_top_shown(sources).fits(sources),
{
    let n = stack.frames.len();
    if n > 0 {
        let top = stack.frames[n - 1].named(""@);
        same_resolution(stack.frames[n - 1], sources);
        assert(stack.frames[n - 1].fits(sources));
        searched_fits(top, top.context.len(), sources);
        let after = stack.with_top_shown(sources);
        assert forall|i: int| 0 <= i < after.frames.len() implies (#[trigger] after.frames[i]).fits(
            sources,
        ) by {
            if i < n - 1 {
                assert(stack.frames[i].fits(sources));
            }
        }
    }
}

proof fn searched_fits(frame: FrameView, n: nat, sources: SourcesView)
    requires
        n <= frame.context.len(),
        frame.fits(sources),
    ensures
        (FrameView { context: frame.searched_of(n, sources), ..frame }).fits(sources),
    decreases n,
{
    searched_len(frame, n, sources);
    if n > 0 {
        searched_len(frame, (n - 1) as nat, sources);
        searched_fits(frame, (n - 1) as nat, sources);
        let before = FrameView { context: frame.searched_of((n - 1) as nat, sources), ..frame };
        let after = FrameView { context: frame.searched_of(n, sources), ..frame };
        assert forall|i: int| 0 <= i < after.context.len() implies (
        #[trigger] after.context[i]).fits(sources) by {
            if i != n - 1 {
                assert(before.context[i].fits(sources));
                assert(frame.context[i].fits(sources));
            }
        }
    }
}

// ---------------------------------------------------------------------------------------------
// What holds of every call stack
// ---------------------------------------------------------------------------------------------

/// A frame that starts and ends again leaves the stack as it was, but for the note in its caller
/// that it was entered; and it is the frame that is handed out.
pub proof fn a_frame_that_starts_ends(
    stack: StackView,
    callee: Option<Seq<char>>,
    at_end: Option<Seq<char>>,
)
    ensures
        ({
            let inside = stack.after_event(Some(TraceEvent::FrameStart), callee);
            let outside = inside.after_event(Some(TraceEvent::FrameEnd), at_end);
            let n = stack.frames.len();
            &&& inside.ended_by(Some(TraceEvent::FrameEnd)) == Some(FrameView::fresh(callee))
            &&& n == 0 ==> outside == stack
            &&& n > 0 ==> outside == (StackView {
                frames: stack.frames.update(n - 1, stack.frames[n - 1].entered(callee)),
                ..stack
            })
        }),
{
    let inside = stack.after_event(Some(TraceEvent::FrameStart), callee);
    let outside = inside.after_event(Some(TraceEvent::FrameEnd), at_end);
    let n = stack.frames.len();
    if n == 0 {
        assert(outside.frames =~= stack.frames);
    } else {
        assert(outside.frames =~= stack.frames.update(n - 1, stack.frames[n - 1].entered(callee)));
    }
}

/// A cycle adds one frame at most, takes one away at most, and takes one away exactly where it
/// hands one out. No cycle forgets a procedure name or an event.
pub proof fn a_cycle_moves_one_frame(
    stack: StackView,
    op: Operation,
    asmop: Option<AssemblyOpView>,
    clk: u32,
)
    ensures
        ({
            let after = stack.after(Some(op), asmop, clk);
            let before = stack.frames.len();
            &&& before - 1 <= after.frames.len() <= before + 1
            &&& after.frames.len() == before - 1 <==> stack.ended_by(stack.event(clk)) is Some
            &&& stack.contexts.subset_of(after.contexts)
            &&& after.trace_events == stack.trace_events
        }),
{
}

/// The name of a frame is settled by the first call that asks for it.
pub proof fn a_name_is_settled_once(frame: FrameView, first: Seq<char>, later: Seq<char>)
    ensures
        frame.named(first).name(later) == frame.name(first),
        frame.named(first).named(later) == frame.named(first),
{
}

/// A location that was found once is found again, whatever sources are known then.
pub proof fn a_resolved_location_stays(frame: FrameView, first: SourcesView, later: SourcesView)
    requires
        frame.last_resolved(first) is Some,
    ensures
        frame.searched(first).last_resolved(later) == frame.last_resolved(first),
{
    found_again(frame, frame.context.len(), first, later);
    searched_len(frame, frame.context.len(), first);
}

proof fn found_again(frame: FrameView, n: nat, first: SourcesView, later: SourcesView)
    requires
        n <= frame.context.len(),
        frame.last_resolved_of(n, first) is Some,
    ensures
        (FrameView { context: frame.searched_of(n, first), ..frame }).last_resolved_of(n, later)
            == frame.last_resolved_of(n, first),
    decreases n,
{
    searched_len(frame, n, first);
    searched_len(frame, (n - 1) as nat, first);
    let entry = frame.context[n - 1].resolved(first);
    let searched = FrameView { context: frame.searched_of(n, first), ..frame };
    assert(searched.context[n - 1] == entry);
    if entry.resolution() is None {
        assert(entry.resolved(later).resolution() is None);
        found_again(frame, (n - 1) as nat, first, later);
        let rest = FrameView { context: frame.searched_of((n - 1) as nat, first), ..frame };
        same_prefix_resolves(searched, rest, (n - 1) as nat, later);
    }
}

proof fn same_prefix_resolves(a: FrameView, b: FrameView, n: nat, sources: SourcesView)
    requires
        n <= a.context.len(),
        n <= b.context.len(),
        forall|i: int| 0 <= i < n ==> a.context[i] == b.context[i],
    ensures
        a.last_resolved_of(n, sources) == b.last_resolved_of(n, sources),
    decreases n,
{
    if n > 0 {
        same_prefix_resolves(a, b, (n - 1) as nat, sources);
    }
}

/// What a call frame is told of: an operation that was run, with the cycles that its instruction
/// takes, or a procedure that was entered.
pub enum Noted {
    Ran { op: Operation, cycles: u8, asmop: Option<AssemblyOpView> },
    Entered { callee: Option<Seq<char>> },
}

/// All that was ever told, as entries. An operation of an instruction that takes several cycles
/// makes no entry where the last entry is for the same operation. An operation has the location of
/// its instruction; without one, that of the entry before it.
pub open spec fn all_entries(noted: Seq<Noted>) -> Seq<DetailView>
    decreases noted.len(),
{
    if noted.len() == 0 {
        Seq::empty()
    } else {
        let before = all_entries(noted.drop_last());
        match noted.last() {
            Noted::Entered { callee } => before.push(DetailView::Exec { callee }),
            Noted::Ran { op, cycles, asmop } => {
                let again = before.len() > 0 && match before.last() {
                    DetailView::Full { op: last, .. } => last == op,
                    DetailView::Basic { op: last } => last == op,
                    DetailView::Exec { .. } => false,
                };
                if cycles > 1 && again {
                    before
                } else {
                    before.push(
                        match asmop {
                            Some(asmop) => DetailView::Full {
                                op,
                                location: asmop.location,
                                resolved: None,
                            },
                            None => if before.len() == 0 {
                                DetailView::Basic { op }
                            } else {
                                DetailView::Full {
                                    op,
                                    location: match before.last() {
                                        DetailView::Full { location, .. } => location,
                                        _ => None,
                                    },
                                    resolved: None,
                                }
                            },
                        },
                    )
                }
            },
        }
    }
}

impl FrameView {
    /// The frame after it was told all of this.
    pub open spec fn told(self, noted: Seq<Noted>) -> FrameView
        decreases noted.len(),
    {
        if noted.len() == 0 {
            self
        } else {
            let before = self.told(noted.drop_last());
            match noted.last() {
                Noted::Ran { op, cycles, asmop } => before.ran(op, cycles, asmop),
                Noted::Entered { callee } => before.entered(callee),
            }
        }
    }
}

/// A call frame remembers the last five entries of all that it was told, in their order, or all of
/// them where there are fewer; and nothing that it is told changes anything else about it.
pub proof fn a_frame_remembers_the_last_five(procedure: Option<Seq<char>>, noted: Seq<Noted>)
    ensures
        ({
            let all = all_entries(noted);
            FrameView::fresh(procedure).told(noted) == (FrameView {
                procedure,
                context: if all.len() > 5 {
                    all.skip(all.len() - 5)
                } else {
                    all
                },
                display_name: None,
                finishing: false,
            })
        }),
    decreases noted.len(),
{
    if noted.len() > 0 {
        a_frame_remembers_the_last_five(procedure, noted.drop_last());
        let before = all_entries(noted.drop_last());
        let all = all_entries(noted);
        let frame = FrameView::fresh(procedure).told(noted);
        assert(frame.context =~= if all.len() > 5 {
            all.skip(all.len() - 5)
        } else {
            all
        });
    } else {
        assert(FrameView::fresh(procedure).context =~= Seq::<DetailView>::empty());
    }
}

/// Operations that differ from the ones before them are remembered with the locations of their
/// instructions: a frame that runs them shows the last five, in order.
pub proof fn a_frame_shows_the_last_operations(
    procedure: Option<Seq<char>>,
    ops: Seq<(Operation, u8, AssemblyOpView)>,
)
    requires
        forall|i: int, j: int|
            0 <= i && j == i + 1 && j < ops.len() ==> (#[trigger] ops[i]).0 != (
            #[trigger] ops[j]).0,
    ensures
        ({
            let noted = ops.map_values(
                |o: (Operation, u8, AssemblyOpView)|
                    Noted::Ran { op: o.0, cycles: o.1, asmop: Some(o.2) },
            );
            let context = FrameView::fresh(procedure).told(noted).context;
            &&& context.len() == if ops.len() < 5 {
                ops.len()
            } else {
                5
            }
            &&& forall|i: int|
                0 <= i < context.len() ==> #[trigger] context[context.len() - 1 - i] == (
                DetailView::Full {
                    op: ops[ops.len() - 1 - i].0,
                    location: ops[ops.len() - 1 - i].2.location,
                    resolved: None,
                })
        }),
{
    let noted = ops.map_values(
        |o: (Operation, u8, AssemblyOpView)|
            Noted::Ran { op: o.0, cycles: o.1, asmop: Some(o.2) },
    );
    a_frame_remembers_the_last_five(procedure, noted);
    every_operation_makes_an_entry(ops);
}

proof fn every_operation_makes_an_entry(ops: Seq<(Operation, u8, AssemblyOpView)>)
    requires
        forall|i: int, j: int|
            0 <= i && j == i + 1 && j < ops.len() ==> (#[trigger] ops[i]).0 != (
            #[trigger] ops[j]).0,
    ensures
        ({
            let noted = ops.map_values(
                |o: (Operation, u8, AssemblyOpView)|
                    Noted::Ran { op: o.0, cycles: o.1, asmop: Some(o.2) },
            );
            &&& all_entries(noted).len() == ops.len()
            &&& forall|i: int|
                0 <= i < ops.len() ==> #[trigger] all_entries(noted)[i] == (DetailView::Full {
                    op: ops[i].0,
                    location: ops[i].2.location,
                    resolved: None,
                })
        }),
    decreases ops.len(),
{
    let f = |o: (Operation, u8, AssemblyOpView)|
        Noted::Ran { op: o.0, cycles: o.1, asmop: Some(o.2) };
    let noted = ops.map_values(f);
    if ops.len() > 0 {
        let front = ops.drop_last();
        assert forall|i: int, j: int| 0 <= i && j == i + 1 && j < front.len() implies (
        #[trigger] front[i]).0 != (#[trigger] front[j]).0 by {
            assert(ops[i].0 != ops[j].0);
        }
        every_operation_makes_an_entry(front);
        assert(noted.drop_last() =~= front.map_values(f));
        let n = front.len();
        if n > 0 {
            assert(ops[n - 1].0 != ops[n as int].0);
            assert(all_entries(front.map_values(f))[n - 1] == (DetailView::Full {
                op: front[n - 1].0,
                location: front[n - 1].2.location,
                resolved: None,
            }));
        }
    }
}

/// A call frame that starts goes on top, knows its procedure and nothing else, and is noted in the
/// frame that was innermost; no other frame is touched. One that ends comes off, and is handed out.
/// Any other event changes nothing.
pub proof fn frames_start_and_end(
    stack: StackView,
    event: Option<TraceEvent>,
    procedure: Option<Seq<char>>,
)
    ensures
        ({
            let after = stack.after_event(event, procedure);
            let n = stack.frames.len() as int;
            &&& after.trace_events == stack.trace_events
            &&& after.contexts == stack.contexts
            &&& after.block_stack == stack.block_stack
            &&& event == Some(TraceEvent::FrameStart) ==> {
                &&& after.frames.len() == n + 1
                &&& after.frames[n] == (FrameView {
                    procedure,
                    context: Seq::empty(),
                    display_name: None,
                    finishing: false,
                })
                &&& forall|i: int| 0 <= i < n - 1 ==> #[trigger] after.frames[i] == stack.frames[i]
                &&& n > 0 ==> {
                    let caller = after.frames[n - 1];
                    &&& caller.context.len() > 0
                    &&& caller.context.last() == (DetailView::Exec { callee: procedure })
                    &&& caller.procedure == stack.frames[n - 1].procedure
                    &&& caller.display_name == stack.frames[n - 1].display_name
                    &&& caller.finishing == stack.frames[n - 1].finishing
                }
                &&& stack.ended_by(event) is None
            }
            &&& event == Some(TraceEvent::FrameEnd) ==> {
                &&& n > 0 ==> after.frames.push(stack.frames[n - 1]) == stack.frames
                    && stack.ended_by(event) == Some(stack.frames[n - 1])
                &&& n == 0 ==> after == stack && stack.ended_by(event) is None
            }
            &&& event != Some(TraceEvent::FrameStart) && event != Some(TraceEvent::FrameEnd) ==> after
                == stack && stack.ended_by(event) is None
        }),
{
    let n = stack.frames.len() as int;
    if n > 0 {
        assert(stack.frames.drop_last().push(stack.frames[n - 1]) =~= stack.frames);
    }
}

/// A block that was opened is closed by the next `end`: what was open before is open again. Blocks
/// of straight-line code are opened by `span` (0x56), and belong to the innermost frame and to the
/// place of their instruction; other blocks are opened by `join` (0x57) and `split` (0x54). No other
/// operation opens or closes a block.
pub proof fn blocks_open_and_close(
    stack: StackView,
    op: Operation,
    asmop: Option<AssemblyOpView>,
    end: Operation,
    at_end: Option<AssemblyOpView>,
)
    requires
        end.code == 0x70,
    ensures
        ({
            let after = stack.after_block(op, asmop);
            let opens = op.code == 0x56 || op.code == 0x57 || op.code == 0x54;
            &&& after.frames == stack.frames
            &&& after.contexts == stack.contexts
            &&& after.trace_events == stack.trace_events
            &&& opens ==> after.block_stack.len() == stack.block_stack.len() + 1
                && after.after_block(end, at_end) == stack
            &&& op.code == 0x57 || op.code == 0x54 ==> after.block() is None
            &&& op.code == 0x56 ==> match (asmop, after.block()) {
                (Some(asmop), Some(span)) => {
                    &&& span.location == asmop.location
                    &&& stack.frames.len() > 0 ==> span.frame_index + 1 == stack.frames.len()
                    &&& stack.frames.len() == 0 ==> span.frame_index == 0
                },
                (None, None) => true,
                _ => false,
            }
            &&& !opens && op.code != 0x70 ==> after == stack
            &&& op.code == 0x70 && stack.block_stack.len() == 0 ==> after == stack
        }),
{
    let after = stack.after_block(op, asmop);
    if op.code == 0x56 || op.code == 0x57 || op.code == 0x54 {
        assert(after.after_block(end, at_end).block_stack =~= stack.block_stack);
    }
}

/// An operation belongs to the procedure of its instruction. Without one, it belongs to that of the
/// frame in which its block was opened, where that is known; else to that of the innermost frame.
pub proof fn an_operation_belongs_to_a_procedure(
    stack: StackView,
    procedure: Option<Seq<char>>,
    span: SpanView,
)
    ensures
        procedure is Some ==> stack.procedure_of(procedure) == procedure,
        procedure is None && stack.block() == Some(span) && span.frame_index < stack.frames.len()
            && stack.frames[span.frame_index as int].procedure is Some ==> stack.procedure_of(None)
            == stack.frames[span.frame_index as int].procedure,
        procedure is None && stack.block() is None && stack.frames.len() > 0 ==> stack.procedure_of(
            None,
        ) == stack.frames.last().procedure,
        procedure is None && stack.block() == Some(span) && stack.frames.len() > 0 && (
        span.frame_index >= stack.frames.len()
            || stack.frames[span.frame_index as int].procedure is None)
            ==> stack.procedure_of(None) == stack.frames.last().procedure,
        procedure is None && stack.frames.len() == 0 ==> stack.procedure_of(None) is None,
        stack.block_stack.len() > 0 ==> stack.block() == stack.block_stack.last(),
        stack.block_stack.len() == 0 ==> stack.block() is None,
{
}

/// An operation without an instruction is taken for one that stands where its block does, in the
/// procedure that the block belongs to, and takes one cycle; outside of all such blocks there is no
/// instruction to be had.
pub proof fn an_operation_takes_after_its_block(
    stack: StackView,
    op: Operation,
    asmop: AssemblyOpView,
    span: SpanView,
)
    ensures
        stack.asmop_of(op, Some(asmop)) == Some(asmop),
        stack.block() is None ==> stack.asmop_of(op, None) is None,
        stack.block() == Some(span) ==> {
            &&& stack.asmop_of(op, None) matches Some(made)
            &&& made.location == span.location
            &&& made.num_cycles == 1
            &&& made.op == op.printed()
            &&& span.frame_index < stack.frames.len() ==> (
            stack.frames[span.frame_index as int].procedure matches Some(name)
                ==> made.context_name == name)
        },
{
}

/// In a cycle without an event, an operation that does not shape control flow is run in the
/// innermost frame, or in a first one where there is none. The frame then knows its procedure, if
/// the operation belongs to one, and remembers the operation last, unless that is `noop` (0x00) or
/// only repeats the one before it. All frames but the caller stay as they are, and of the caller
/// nothing changes but the name of the procedure it entered, where that was not known.
pub proof fn an_operation_runs_in_the_innermost_frame(
    stack: StackView,
    op: Operation,
    asmop: AssemblyOpView,
    clk: u32,
)
    requires
        !stack.trace_events.contains_key(clk),
        op.code != 0x57 && op.code != 0x54 && op.code != 0x56 && op.code != 0x78 && op.code != 0x70,
    ensures
        ({
            let after = stack.after(Some(op), Some(asmop), clk);
            let n = stack.frames.len() as int;
            let top = after.frames.last();
            let was = if n > 0 {
                stack.frames.last()
            } else {
                FrameView::fresh(None)
            };
            let again = asmop.num_cycles > 1 && was.context.len() > 0 && match was.context.last() {
                DetailView::Full { op: last, .. } => last == op,
                DetailView::Basic { op: last } => last == op,
                DetailView::Exec { .. } => false,
            };
            &&& after.trace_events == stack.trace_events
            &&& after.block_stack == stack.block_stack
            &&& after.contexts == stack.contexts.insert(asmop.context_name)
            &&& after.frames.len() == if n > 0 {
                n
            } else {
                1
            }
            &&& top.procedure == if was.procedure is Some {
                was.procedure
            } else {
                Some(asmop.context_name)
            }
            &&& top.display_name == was.display_name
            &&& top.finishing == was.finishing
            &&& op.code == 0 || again ==> top.context == was.context
            &&& op.code != 0 && !again ==> {
                &&& top.context.len() > 0
                &&& top.context.last() == (DetailView::Full {
                    op,
                    location: asmop.location,
                    resolved: None,
                })
            }
            &&& forall|i: int| 0 <= i < n - 2 ==> #[trigger] after.frames[i] == stack.frames[i]
            &&& n > 1 && was.procedure is Some ==> after.frames[n - 2] == stack.frames[n - 2]
            &&& n > 1 ==> {
                let (a, b) = (after.frames[n - 2], stack.frames[n - 2]);
                &&& a.procedure == b.procedure
                &&& a.display_name == b.display_name
                &&& a.finishing == b.finishing
                &&& a.context.len() == b.context.len()
                &&& forall|i: int|
                    0 <= i < b.context.len() ==> (#[trigger] a.context[i] == b.context[i] || (i
                        == b.context.len() - 1 && b.context[i] == (DetailView::Exec {
                        callee: None,
                    }) && a.context[i] == (DetailView::Exec { callee: Some(asmop.context_name) })))
                &&& was.procedure is None && b.context.len() > 0 && b.context.last() == (
                DetailView::Exec { callee: None }) ==> a.context.last() == (DetailView::Exec {
                    callee: Some(asmop.context_name),
                })
            }
        }),
{
    let after = stack.after(Some(op), Some(asmop), clk);
    let n = stack.frames.len() as int;
    assert(op.code == 0x70 || op.code != OP_END);
    if n > 0 {
        assert(after.frames.last() == after.frames[n - 1]);
    }
}

/// An operation that only shapes control flow leaves no trace in the call frames: without an event
/// they stay as they are. A cycle without an operation changes nothing at all.
pub proof fn control_flow_leaves_frames_alone(
    stack: StackView,
    op: Operation,
    asmop: Option<AssemblyOpView>,
    clk: u32,
)
    ensures
        stack.after(None, asmop, clk) == stack,
        !stack.trace_events.contains_key(clk) && (op.code == 0x57 || op.code == 0x54 || op.code
            == 0x56 || op.code == 0x78 || op.code == 0x70) ==> stack.after(
            Some(op),
            asmop,
            clk,
        ).frames == stack.frames,
{
}

/// In the cycle of an event, a call frame starts or ends as the event says: one that starts is new
/// but for the operation run in it; one that ends is gone, and nothing is run in the others.
pub proof fn an_event_counts_in_its_cycle(
    stack: StackView,
    op: Operation,
    asmop: AssemblyOpView,
    clk: u32,
)
    requires
        stack.trace_events.contains_key(clk),
    ensures
        ({
            let after = stack.after(Some(op), Some(asmop), clk);
            let n = stack.frames.len() as int;
            &&& stack.trace_events[clk] is FrameStart ==> {
                &&& after.frames.len() == n + 1
                &&& after.frames[n].procedure == Some(asmop.context_name)
                &&& after.frames[n].context.len() <= 1
                &&& !after.frames[n].finishing
                &&& n > 0 ==> after.frames[n - 1].context.len() > 0
                    && after.frames[n - 1].context.last() == (DetailView::Exec {
                    callee: Some(asmop.context_name),
                })
            }
            &&& stack.trace_events[clk] is FrameEnd && n > 0 ==> after.frames == stack.frames.take(
                n - 1,
            )
        }),
{
    let n = stack.frames.len() as int;
    if n > 0 {
        assert(stack.frames.drop_last() =~= stack.frames.take(n - 1));
    }
}

/// The place of a frame is that of its latest entry that has one to be found: no later entry has
/// one.
pub proof fn the_latest_place_counts(frame: FrameView, sources: SourcesView)
    ensures
        match frame.last_resolved(sources) {
            Some(found) => exists|i: int|
                {
                    &&& 0 <= i < frame.context.len()
                    &&& (#[trigger] frame.context[i]).resolved(sources).resolution() == Some(found)
                    &&& forall|k: int|
                        i < k < frame.context.len() ==> (#[trigger] frame.context[k]).resolved(
                            sources,
                        ).resolution() is None
                },
            None => forall|k: int|
                0 <= k < frame.context.len() ==> (#[trigger] frame.context[k]).resolved(
                    sources,
                ).resolution() is None,
        },
{
    the_latest_place_of(frame, frame.context.len(), sources);
}

proof fn the_latest_place_of(frame: FrameView, n: nat, sources: SourcesView)
    requires
        n <= frame.context.len(),
    ensures
        match frame.last_resolved_of(n, sources) {
            Some(found) => exists|i: int|
                {
                    &&& 0 <= i < n
                    &&& (#[trigger] frame.context[i]).resolved(sources).resolution() == Some(found)
                    &&& forall|k: int|
                        i < k < n ==> (#[trigger] frame.context[k]).resolved(
                            sources,
                        ).resolution() is None
                },
            None => forall|k: int|
                0 <= k < n ==> (#[trigger] frame.context[k]).resolved(sources).resolution() is None,
        },
    decreases n,
{
    if n > 0 {
        the_latest_place_of(frame, (n - 1) as nat, sources);
        match frame.context[n - 1].resolved(sources).resolution() {
            Some(found) => {
                assert(frame.context[n - 1].resolved(sources).resolution() == Some(found));
            },
            None => {},
        }
    }
}

/// An entry is resolved to the place that its location has in the sources, once: later it is what it
/// was then. Entries without a location have no place, and an entry keeps its operation and location.
pub proof fn an_entry_is_resolved_by_its_location(
    entry: DetailView,
    sources: SourcesView,
    later: SourcesView,
)
    ensures
        entry.resolved(sources).resolved(later) == entry.resolved(sources) || entry.location() is None,
        entry.resolved(sources).operation() == entry.operation(),
        entry.resolved(sources).location() == entry.location(),
        entry.resolved(sources).printed() == entry.printed(),
        entry matches DetailView::Full { location: Some(location), resolved: None, .. }
            ==> entry.resolved(sources).resolution() == crate::debug::source::resolved_with(
            location,
            sources,
        ),
        entry matches DetailView::Full { resolved: Some(r), .. } ==> entry.resolved(
            sources,
        ).resolution() == r,
        entry matches DetailView::Full { location: None, resolved: None, .. } ==> entry.resolved(
            sources,
        ).resolution() is None,
        !(entry is Full) ==> entry.resolved(sources).resolution() is None,
        entry matches DetailView::Full { location, .. } ==> entry.location() == location,
        !(entry is Full) ==> entry.location() is None,
{
}

/// Looking for the place of a frame resolves the entry where it is found, and those behind it, and
/// leaves all others as they are.
pub proof fn a_search_resolves_what_it_looked_at(frame: FrameView, sources: SourcesView, i: int)
    requires
        0 <= i < frame.context.len(),
    ensures
        frame.searched(sources).context.len() == frame.context.len(),
        frame.searched(sources).procedure == frame.procedure,
        frame.searched(sources).display_name == frame.display_name,
        frame.searched(sources).finishing == frame.finishing,
        frame.searched(sources).context[i] == if exists|k: int|
            i < k < frame.context.len() && (#[trigger] frame.context[k]).resolved(
                sources,
            ).resolution() is Some {
            frame.context[i]
        } else {
            frame.context[i].resolved(sources)
        },
{
    searched_len(frame, frame.context.len(), sources);
    searched_entries(frame, frame.context.len(), sources, i);
}

proof fn searched_entries(frame: FrameView, n: nat, sources: SourcesView, i: int)
    requires
        n <= frame.context.len(),
        0 <= i < frame.context.len(),
    ensures
        frame.searched_of(n, sources).len() == frame.context.len(),
        frame.searched_of(n, sources)[i] == if i >= n || exists|k: int|
            i < k < n && (#[trigger] frame.context[k]).resolved(sources).resolution() is Some {
            frame.context[i]
        } else {
            frame.context[i].resolved(sources)
        },
    decreases n,
{
    if n > 0 {
        searched_len(frame, n, sources);
        searched_len(frame, (n - 1) as nat, sources);
        searched_entries(frame, (n - 1) as nat, sources, i);
        if i < n - 1 && frame.context[n - 1].resolved(sources).resolution() is Some {
            assert(frame.context[n - 1].resolved(sources).resolution() is Some);
        }
    }
}

/// The location of a frame is that of the last operation it ran: an entry that tells of a procedure
/// is passed over once.
pub proof fn a_frame_stands_at_its_last_operation(frame: FrameView)
    ensures
        ({
            let n = frame.context.len() as int;
            &&& n == 0 ==> frame.last_location() is None
            &&& n > 0 && !(frame.context[n - 1] is Exec) ==> frame.last_location()
                == frame.context[n - 1].location()
            &&& n == 1 && frame.context[0] is Exec ==> frame.last_location() is None
            &&& n > 1 && frame.context[n - 1] is Exec ==> frame.last_location()
                == frame.context[n - 2].location()
        }),
{
}

/// The module in front of a name is taken off where it is the one that was given, and a name of
/// another module, or of none, stays as it is.
pub proof fn only_the_given_module_is_taken_off(module: Seq<char>, name: Seq<char>, prefix: Seq<char>)
    requires
        !module.contains(':'),
    ensures
        without_module(module + seq![':', ':'] + name, module) == name,
        module != prefix ==> without_module(module + seq![':', ':'] + name, prefix) == module
            + seq![':', ':'] + name,
        without_module(module, prefix) == module,
{
    reveal_strlit("::");
    let sep = seq![':', ':'];
    assert("::"@ =~= sep);
    let whole = module + sep + name;
    crate::text::a_split_text_is_put_together_again(whole, sep);
    crate::text::a_split_text_is_put_together_again(module, sep);
    assert(whole == module + sep + name);
    if let Some((before, after)) = crate::text::split_first(whole, sep) {
        assert(before.len() <= module.len());
        if before.len() < module.len() {
            assert(whole[before.len() as int] == ':') by {
                assert((before + sep + after)[before.len() as int] == sep[0]);
            }
            assert(module[before.len() as int] == ':');
            assert(false);
        }
        assert(before =~= whole.take(module.len() as int));
        assert(module =~= whole.take(module.len() as int));
        assert(after =~= whole.skip(module.len() as int + 2));
        assert(name =~= whole.skip(module.len() as int + 2));
    }
    if let Some((before, after)) = crate::text::split_first(module, sep) {
        assert((before + sep + after)[before.len() as int] == ':');
        assert(module[before.len() as int] == ':');
        assert(false);
    }
}

/// The lines for the operations of the innermost frame stand one after the other, in order; each
/// holds what its entry is printed as, and only the last one is marked as the place of the error.
pub proof fn every_entry_has_its_line(context: Seq<DetailView>, n: nat)
    requires
        n <= context.len(),
    ensures
        context_lines(context, n) == Seq::new(
            n,
            |i: int|
                " |   "@ + (match context[i].callee(""@) {
                    Some(callee) => "exec."@ + callee,
                    None => context[i].printed(),
                }) + (if i == context.len() - 1 {
                    "\n `-> <error occured here>\n"@
                } else {
                    "\n"@
                }),
        ).flatten(),
    decreases n,
{
    let line = |i: int|
        " |   "@ + (match context[i].callee(""@) {
            Some(callee) => "exec."@ + callee,
            None => context[i].printed(),
        }) + (if i == context.len() - 1 {
            "\n `-> <error occured here>\n"@
        } else {
            "\n"@
        });
    let lines = Seq::new(n, line);
    if n > 0 {
        every_entry_has_its_line(context, (n - 1) as nat);
        let front = Seq::new((n - 1) as nat, line);
        front.lemma_flatten_push(line(n - 1));
        assert(lines =~= front.push(line(n - 1)));
        assert(lines.flatten() == front.flatten() + line(n - 1));
    } else {
        assert(lines =~= Seq::<Seq<char>>::empty());
    }
}

/// So do those for the operations that were run last in whatever frame.
pub proof fn every_recent_operation_has_its_line(recent: Seq<Operation>, n: nat)
    requires
        n <= recent.len(),
    ensures
        recent_lines(recent, n) == Seq::new(
            n,
            |i: int|
                " |   "@ + recent[i].printed() + (if i == recent.len() - 1 {
                    "\n `-> <error occured here>\n"@
                } else {
                    "\n"@
                }),
        ).flatten(),
    decreases n,
{
    let line = |i: int|
        " |   "@ + recent[i].printed() + (if i == recent.len() - 1 {
            "\n `-> <error occured here>\n"@
        } else {
            "\n"@
        });
    let lines = Seq::new(n, line);
    if n > 0 {
        every_recent_operation_has_its_line(recent, (n - 1) as nat);
        let front = Seq::new((n - 1) as nat, line);
        front.lemma_flatten_push(line(n - 1));
        assert(lines =~= front.push(line(n - 1)));
        assert(lines.flatten() == front.flatten() + line(n - 1));
        assert(recent_lines(recent, n) =~= recent_lines(recent, (n - 1) as nat) + line(n - 1));
    } else {
        assert(lines =~= Seq::<Seq<char>>::empty());
    }
}

/// Where it is not known which procedure a block belongs to, an instruction made up from it has no
/// name to show.
pub proof fn a_block_of_no_procedure_is_unknown(stack: StackView, op: Operation, span: SpanView)
    requires
        stack.block() == Some(span),
        span.frame_index >= stack.frames.len()
            || stack.frames[span.frame_index as int].procedure is None,
    ensures
        stack.asmop_of(op, None) matches Some(made) && made.context_name == "<unknown>"@,
{
}

/// An entry is printed as its operation is; one for a procedure names the procedure.
pub proof fn entries_are_printed_by_what_they_hold(
    op: Operation,
    location: Option<LocationView>,
    resolved: Option<Option<ResolvedView>>,
    name: Seq<char>,
    prefix: Seq<char>,
)
    ensures
        (DetailView::Full { op, location, resolved }).printed() == op.printed(),
        (DetailView::Basic { op }).printed() == op.printed(),
        name.is_suffix_of((DetailView::Exec { callee: Some(name) }).printed()),
        (DetailView::Full { op, location, resolved }).operation() == Some(op),
        (DetailView::Basic { op }).operation() == Some(op),
        (DetailView::Exec { callee: Some(name) }).operation() is None,
        (DetailView::Full { op, location, resolved }).callee(prefix) is None,
        (DetailView::Basic { op }).callee(prefix) is None,
        (DetailView::Exec { callee: Some(name) }).callee(prefix) == Some(
            demangled(without_module(name, prefix)),
        ),
        (DetailView::Exec { callee: None }).callee(prefix) == Some("<unknown>"@),
{
    let printed = (DetailView::Exec { callee: Some(name) }).printed();
    assert(printed.subrange(printed.len() - name.len(), printed.len() as int) =~= name);
}

/// The text of a stack trace has a line for each frame, the outermost first, and the operations
/// behind the line of the innermost one.
pub proof fn every_frame_has_its_line(
    frames: Seq<FrameView>,
    n: nat,
    recent: Seq<Operation>,
    sources: SourcesView,
)
    requires
        n <= frames.len(),
    ensures
        frames_text(frames, n, recent, sources) == Seq::new(
            n,
            |i: int|
                if i == frames.len() - 1 {
                    frames[i].headline(true, sources) + details_text(frames[i], recent)
                } else {
                    frames[i].headline(false, sources) + "\n"@
                },
        ).flatten(),
    decreases n,
{
    let line = |i: int|
        if i == frames.len() - 1 {
            frames[i].headline(true, sources) + details_text(frames[i], recent)
        } else {
            frames[i].headline(false, sources) + "\n"@
        };
    let lines = Seq::new(n, line);
    if n > 0 {
        every_frame_has_its_line(frames, (n - 1) as nat, recent, sources);
        let front = Seq::new((n - 1) as nat, line);
        front.lemma_flatten_push(line(n - 1));
        assert(lines =~= front.push(line(n - 1)));
        assert(frames_text(frames, n, recent, sources) =~= frames_text(
            frames,
            (n - 1) as nat,
            recent,
            sources,
        ) + line(n - 1));
    } else {
        assert(lines =~= Seq::<Seq<char>>::empty());
    }
}

/// The line of a frame names its procedure, and then the place where the frame stands.
pub proof fn a_frame_is_shown_by_name_and_place(frame: FrameView, is_top: bool, sources: SourcesView)
    ensures
        ({
            let line = frame.headline(is_top, sources);
            let name = match frame.name(""@) {
                Some(name) => name,
                None => "<unknown>"@,
            };
            &&& crate::text::occurs_at(line, name + seq![' ', 'i', 'n', ' '], 5)
            &&& match frame.last_resolved(sources) {
                Some(place) => {
                    &&& place.printed().is_suffix_of(line)
                    &&& line.len() == name.len() + place.printed().len() + 9
                },
                None => "<unavailable>"@.is_suffix_of(line) && line.len() == name.len() + 22,
            }
            &&& line[1] == if is_top {
                '`'
            } else {
                '|'
            }
        }),
{
    reveal_strlit(" `-> ");
    reveal_strlit(" |-> ");
    reveal_strlit(" in ");
    reveal_strlit(" in <unavailable>");
    reveal_strlit("<unavailable>");
    let line = frame.headline(is_top, sources);
    let name = match frame.name(""@) {
        Some(name) => name,
        None => "<unknown>"@,
    };
    let shown = name + seq![' ', 'i', 'n', ' '];
    assert(line.subrange(5, 5int + shown.len()) =~= shown);
    match frame.last_resolved(sources) {
        Some(place) => {
            let p = place.printed();
            assert(line.subrange(line.len() - p.len(), line.len() as int) =~= p);
        },
        None => {
            let p = "<unavailable>"@;
            assert(line.subrange(line.len() - p.len(), line.len() as int) =~= p);
        },
    }
}

/// What is shown below the line of the innermost frame says how many operations of the frame follow,
/// and how many of whatever frame.
pub proof fn the_operations_shown_are_counted(frame: FrameView, recent: Seq<Operation>)
    ensures
        exists|x: Seq<char>, y: Seq<char>|
            {
                &&& #[trigger] crate::text::is_numeral(x, 10)
                &&& crate::text::place_value(x, 10) == frame.context.len()
                &&& #[trigger] crate::text::is_numeral(y, 10)
                &&& crate::text::place_value(y, 10) == recent.len()
                &&& details_text(frame, recent) == ":\n\nLast "@ + x
                    + " Instructions (of current frame):\n"@ + context_lines(
                    frame.context,
                    frame.context.len(),
                ) + "\n\nLast "@ + y + " Instructions (any frame):\n"@ + recent_lines(
                    recent,
                    recent.len(),
                )
            },
{
    let x = crate::text::decimal(frame.context.len());
    let y = crate::text::decimal(recent.len());
    crate::text::a_number_is_what_its_digits_stand_for(frame.context.len(), 10);
    crate::text::a_number_is_what_its_digits_stand_for(recent.len(), 10);
    assert(crate::text::is_numeral(x, 10) && crate::text::is_numeral(y, 10));
}

/// The name of a frame is made from that of its procedure, and a frame whose procedure is not known
/// has none.
pub proof fn a_frame_is_named_after_its_procedure(frame: FrameView, prefix: Seq<char>)
    requires
        frame.display_name is None,
    ensures
        match frame.procedure {
            Some(procedure) => frame.name(prefix) == Some(
                demangled(without_module(procedure, prefix)),
            ),
            None => frame.name(prefix) is None,
        },
        frame.named(prefix).procedure == frame.procedure,
        frame.named(prefix).context == frame.context,
        frame.named(prefix).finishing == frame.finishing,
{
}

/// A trace tells the name of the innermost frame and the place that its last operation with one
/// stands at; without a frame it tells nothing.
pub proof fn a_trace_tells_of_the_innermost_frame(
    trace: StackTrace,
    stack: StackView,
    frame: FrameView,
    sources: SourcesView,
)
    requires
        trace.shows(stack, sources),
    ensures
        stack.frames.len() == 0 ==> trace.current_frame is None,
        stack.frames.len() > 0 && stack.frames.last() == frame ==> ({
            &&& trace.current_frame matches Some(current)
            &&& frame.procedure is None ==> current.procedure is None
            &&& frame.procedure is Some ==> crate::debug::op::text_view(current.procedure)
                == frame.name(""@)
            &&& crate::debug::source::resolved_view(current.location) == frame.last_resolved(
                sources,
            )
        }),
{
}

/// Showing frames gives each of them its name, and nothing else that is seen of it changes: the
/// frames stay the same in number and in order, with the same procedures and the same operations.
pub proof fn showing_frames_changes_little(stack: StackView, sources: SourcesView, i: int)
    requires
        0 <= i < stack.frames.len(),
    ensures
        ({
            let all = stack.all_shown(sources);
            let top = stack.with_top_shown(sources);
            &&& all.frames.len() == stack.frames.len()
            &&& top.frames.len() == stack.frames.len()
            &&& all.frames[i].procedure == stack.frames[i].procedure
            &&& all.frames[i].name(""@) == stack.frames[i].name(""@)
            &&& all.frames[i].finishing == stack.frames[i].finishing
            &&& i < stack.frames.len() - 1 ==> top.frames[i] == stack.frames[i]
            &&& i == stack.frames.len() - 1 ==> top.frames[i] == all.frames[i]
            &&& all.block_stack == stack.block_stack && all.contexts == stack.contexts
            &&& all.trace_events == stack.trace_events
        }),
{
}

/// A frame of a program that runs elsewhere has the name that it is told by, and stands at the place
/// that is told: it remembers one operation there, which does nothing, or none where no place is
/// told.
pub proof fn a_remote_frame_stands_where_it_is_told(
    name: Option<Seq<char>>,
    place: Option<ResolvedView>,
    sources: SourcesView,
)
    ensures
        FrameView::remote(name, place).procedure == name,
        FrameView::remote(name, place).last_resolved(sources) == place,
        forall|i: int|
            0 <= i < FrameView::remote(name, place).context.len() ==> match (
            #[trigger] FrameView::remote(name, place).context[i]).operation() {
                Some(op) => op.code == 0 && op.imm == 0,
                None => false,
            },
{
    reveal_with_fuel(FrameView::last_resolved_of, 2);
}

} // verus!
