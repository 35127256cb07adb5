use vstd::prelude::*;
use std::collections::VecDeque;
use crate::input::{Input, InputView};

verus! {

/// What waits to be done by the main loop.
#[derive(Debug, PartialEq, Eq)]
pub enum Cmd {
    Exit,
    Draw,
    ForceDraw,
    MouseInput { pos: (u32, u32), input: Input },
    KeyboardInput { input: Input },
}

/// A [`Cmd`] with the view of its input.
pub enum CmdView {
    Exit,
    Draw,
    ForceDraw,
    MouseInput { pos: (u32, u32), input: InputView },
    KeyboardInput { input: InputView },
}

impl View for Cmd {
    type V = CmdView;

    open spec fn view(&self) -> CmdView {
        match *self {
            Cmd::Exit => CmdView::Exit,
            Cmd::Draw => CmdView::Draw,
            Cmd::ForceDraw => CmdView::ForceDraw,
            Cmd::MouseInput { pos, input } => CmdView::MouseInput { pos, input: input@ },
            Cmd::KeyboardInput { input } => CmdView::KeyboardInput { input: input@ },
        }
    }
}

impl CmdView {
    /// Whether a mouse command and the input in it agree on the place.
    pub open spec fn consistent(self) -> bool {
        self matches CmdView::MouseInput { pos, input } ==> (input.place() matches Some(p)
            ==> p == pos)
    }
}

impl Cmd {
    /// Whether a mouse command and the input in it agree on the place.
    pub fn is_consistent(&self) -> (r: bool)
        ensures
            r == self@.consistent(),
    {
        match self {
            Cmd::MouseInput { pos, input } => match input {
                Input::Scroll { pos: p, .. } => p.0 == pos.0 && p.1 == pos.1,
                Input::Click { pos: p, .. } => p.0 == pos.0 && p.1 == pos.1,
                Input::Keypress { .. } => true,
            },
            _ => true,
        }
    }
}

/// The views of `cmds`.
pub open spec fn cmd_views(cmds: Seq<Cmd>) -> Seq<CmdView> {
    cmds.map_values(|c: Cmd| c@)
}

/// Whether each of `cmds` is consistent.
pub open spec fn all_consistent(cmds: Seq<CmdView>) -> bool {
    forall|i: int| 0 <= i < cmds.len() ==> (#[trigger] cmds[i]).consistent()
}

/// The commands that wait, the oldest in front.
#[derive(Debug)]
pub struct CmdQueue {
    pub cmds: VecDeque<Cmd>,
}

impl View for CmdQueue {
    type V = Seq<CmdView>;

    open spec fn view(&self) -> Seq<CmdView> {
        cmd_views(self.cmds@)
    }
}

impl CmdQueue {
    /// No command waits.
    pub fn new() -> (r: CmdQueue)
        ensures
            r@ == Seq::<CmdView>::empty(),
    {
        CmdQueue { cmds: VecDeque::new() }
    }

    /// Lets `cmd` wait behind the others.
    pub fn push_back(&mut self, cmd: Cmd)
        ensures
            final(self)@ == old(self)@.push(cmd@),
    {
        self.cmds.push_back(cmd);
    }

    /// Lets `cmds` wait behind the others, in their order.
    pub fn push_all(&mut self, cmds: Vec<Cmd>)
        ensures
            final(self)@ == old(self)@ + cmd_views(cmds@),
    {
        let ghost before = self.cmds@;
        let ghost all = cmds@;
        for cmd in it: cmds
            invariant
                it.seq() == all,
                self.cmds@ == before + all.take(it.index()),
        {
            self.cmds.push_back(cmd);
        }
        assert(all.take(all.len() as int) == all);
        assert(cmd_views(before + all) == cmd_views(before) + cmd_views(all));
    }

    /// Takes the command out that has waited longest.
    pub fn pop_front(&mut self) -> (r: Option<Cmd>)
        ensures
            match r {
                Some(cmd) => old(self)@.len() > 0 && cmd@ == old(self)@[0] && final(self)@
                    == old(self)@.skip(1),
                None => old(self)@.len() == 0 && final(self)@ == old(self)@,
            },
    {
        let ghost before = self.cmds@;
        let r = self.cmds.pop_front();
        assert(before.len() > 0 ==> cmd_views(before).skip(1) == cmd_views(
            before.subrange(1, before.len() as int),
        ));
        r
    }
}

/// The command that a request for a redraw stands for: of what changed if
/// `update`, else of everything.
pub open spec fn draw_request_view(update: bool) -> CmdView {
    if update {
        CmdView::Draw
    } else {
        CmdView::ForceDraw
    }
}

/// The command that a request for a redraw stands for.
pub fn draw_request(update: bool) -> (r: Cmd)
    ensures
        r@ == draw_request_view(update),
{
    if update {
        Cmd::Draw
    } else {
        Cmd::ForceDraw
    }
}

/// The view of a command loses nothing but what the view of its input loses.
pub proof fn law_view_keeps_the_command(cmd: Cmd)
    ensures
        match cmd {
            Cmd::Exit => cmd@ == CmdView::Exit,
            Cmd::Draw => cmd@ == CmdView::Draw,
            Cmd::ForceDraw => cmd@ == CmdView::ForceDraw,
            Cmd::MouseInput { pos, input } => cmd@ == (CmdView::MouseInput {
                pos,
                input: input@,
            }),
            Cmd::KeyboardInput { input } => cmd@ == (CmdView::KeyboardInput { input: input@ }),
        },
{
}

/// The view of a queue has every command of it, in its place.
pub proof fn law_view_keeps_the_queue(queue: CmdQueue, cmds: Seq<Cmd>, i: int)
    ensures
        queue@.len() == queue.cmds@.len(),
        0 <= i < queue@.len() ==> queue@[i] == queue.cmds@[i]@,
        cmd_views(cmds).len() == cmds.len(),
        0 <= i < cmds.len() ==> cmd_views(cmds)[i] == cmds[i]@,
{
}

/// A command is inconsistent only if it is of the mouse, scrolls or clicks, and
/// does so at another place than it says.
pub proof fn law_what_is_consistent(cmd: CmdView)
    ensures
        cmd.consistent() <==> match cmd {
            CmdView::MouseInput { pos, input: InputView::Scroll { pos: p, .. } } => p.0 == pos.0
                && p.1 == pos.1,
            CmdView::MouseInput { pos, input: InputView::Click { pos: p, .. } } => p.0 == pos.0
                && p.1 == pos.1,
            _ => true,
        },
{
}

/// A request for an update asks to draw what changed, any other one to draw
/// everything.
pub proof fn law_draw_requests(update: bool)
    ensures
        update <==> draw_request_view(update) == CmdView::Draw,
        !update <==> draw_request_view(update) == CmdView::ForceDraw,
{
}

} // verus!
