//! The pane that shows the operand stack.
use vstd::prelude::*;
use vstd::string::*;

verus! {

/// What a pane is told.
#[derive(Debug, Clone, Copy, PartialEq, Eq, Structural)]
pub enum PaneAction {
    Focus,
    UnFocus,
    /// Anything else.
    Other,
}

/// How the border of a pane is drawn.
#[derive(Debug, Clone, Copy, PartialEq, Eq, Structural)]
pub enum PaneBorder {
    Thick,
    Plain,
}

/// The most lines that the pane takes up.
pub const MAX_HEIGHT: u16 = 30;

/// The pane that shows the operand stack.
#[derive(Debug)]
pub struct OperandStackPane {
    focused: bool,
}

/// The lines of the pane: the operand stack, the top last.
pub open spec fn stack_lines(stack: Seq<u64>) -> Seq<Seq<char>> {
    Seq::new(
        stack.len(),
        |i: int| " "@ + crate::text::decimal(stack[stack.len() - 1 - i] as nat),
    )
}

impl OperandStackPane {
    /// Whether what the user does goes to this pane.
    pub closed spec fn is_focused(&self) -> bool {
        self.focused
    }

    pub fn new(focused: bool) -> (r: Self)
        ensures
            r.is_focused() == focused,
    {
        OperandStackPane { focused }
    }

    /// Whether the border has the style of the pane that the user is in.
    pub fn highlighted(&self) -> (r: bool)
        ensures
            r == self.is_focused(),
    {
        self.focused
    }

    pub fn border_type(&self) -> (r: PaneBorder)
        ensures
            r == if self.is_focused() {
                PaneBorder::Thick
            } else {
                PaneBorder::Plain
            },
    {
        if self.focused {
            PaneBorder::Thick
        } else {
            PaneBorder::Plain
        }
    }

    /// The most lines that the pane takes up, whether the user is in it or not.
    pub fn height_constraint(&self) -> (r: u16)
        ensures
            r == MAX_HEIGHT,
    {
        MAX_HEIGHT
    }

    pub fn update(&mut self, action: PaneAction)
        ensures
            final(self).is_focused() == match action {
                PaneAction::Focus => true,
                PaneAction::UnFocus => false,
                PaneAction::Other => old(self).is_focused(),
            },
    {
        match action {
            PaneAction::Focus => {
                self.focused = true;
            },
            PaneAction::UnFocus => {
                self.focused = false;
            },
            PaneAction::Other => {},
        }
    }

    /// The lines of the pane: the operand stack, the top last.
    pub fn lines(stack: &Vec<u64>) -> (r: Vec<String>)
        ensures
            crate::linker::text_views(r@) == stack_lines(stack@),
    {
        let mut out: Vec<String> = Vec::new();
        let mut i: usize = stack.len();
        while i > 0
            invariant
                i <= stack@.len(),
                out@.len() == stack@.len() - i,
                forall|k: int|
                    0 <= k < out@.len() ==> (#[trigger] out@[k])@ == stack_lines(stack@)[k],
            decreases i,
        {
            i -= 1;
            out.push(crate::text::concat(" ", crate::text::render_decimal(stack[i]).as_str()));
        }
        proof {
            assert(crate::linker::text_views(out@) =~= stack_lines(stack@));
        }
        out
    }

    /// The line that is marked: the top of the stack.
    pub fn selected_line(depth: usize) -> (r: usize)
        ensures
            r == if depth > 0 {
                depth - 1
            } else {
                0
            },
    {
        if depth > 0 {
            depth - 1
        } else {
            0
        }
    }

    /// What stands at the bottom of the pane.
    pub fn bottom_title(depth: usize) -> (r: String)
        ensures
            r@ == "depth is "@ + crate::text::decimal(depth as nat),
    {
        crate::text::concat("depth is ", crate::text::render_usize(depth).as_str())
    }
}

/// The marked line is the top of the stack, where the stack is not empty.
pub proof fn the_top_is_marked(stack: Seq<u64>)
    requires
        stack.len() > 0,
    ensures
        stack_lines(stack)[stack.len() - 1] == " "@ + crate::text::decimal(stack[0] as nat),
{
}

/// Every element of the stack has a line of its own, which shows its value; the further down it
/// stands in the stack, the further up its line.
pub proof fn every_element_has_its_line(stack: Seq<u64>, i: int)
    requires
        0 <= i < stack.len(),
    ensures
        stack_lines(stack).len() == stack.len(),
        ({
            let line = stack_lines(stack)[stack.len() - 1 - i];
            line.len() > 0 && line[0] == ' ' && crate::text::shows_number(
                line.skip(1),
                stack[i] as int,
            )
        }),
{
    reveal_strlit(" ");
    let line = stack_lines(stack)[stack.len() - 1 - i];
    assert(line.skip(1) =~= crate::text::decimal(stack[i] as nat));
    crate::text::a_number_is_what_its_digits_stand_for(stack[i] as nat, 10);
}

} // verus!
