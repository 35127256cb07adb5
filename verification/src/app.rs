use vstd::prelude::*;
use crate::cmd::{all_consistent, draw_request, draw_request_view, Cmd, CmdQueue, CmdView};
use crate::geometry::{
    byte_count, content, countable, covers, drawable, fits, pool_bytes,
};
use crate::input::{Input, InputView};
use crate::keyboard::{key_command, keyboard_event, KbEvent, KeyState};
use crate::layout::{
    law_panels_do_not_overlap, law_panels_fit_their_window, law_window_of_layout, layout,
    layout_of, window_size, window_size_of, Available,
};
use crate::module::Module;
use crate::outputs::{AppInner, GlobalEvent, InnerView, OutputOp};
use crate::pointer::{
    law_frame_passes_on_what_waits, law_pointer_commands_are_consistent, Pointer, PointerEvent,
};
use crate::redraw::{
    all_have_room, all_surface_ops, buffer_op, damage_between, draw_of, draws_between, draws_in,
    failure, goes_wrong, harmless, has_room, law_damage_of_each_panel,
    law_every_surface_shows_every_rectangle, law_first_failure_ends_redraw,
    law_redraw_collects_damage, lemma_draws_same_place, lemma_one_more_action, updates_between,
    updates_in, Answer, DrawActionView, DrawEventView, Phase, PresentOp, Redraw, RedrawView, Run,
};

verus! {

/// What the main loop is to do next.
#[derive(Debug, PartialEq, Eq)]
pub enum LoopOp {
    /// Redraw: everything if `force`, else what changed.
    Redraw { force: bool },
    /// Send out what waits for the compositor.
    FlushDisplay,
    /// Hand `input` to the panel at `module`.
    Deliver { module: usize, input: Input },
    /// End the program.
    Exit,
    /// Wait for events.
    Wait,
}

/// A [`LoopOp`] with the view of its input.
pub enum LoopOpView {
    Redraw { force: bool },
    FlushDisplay,
    Deliver { module: usize, input: InputView },
    Exit,
    Wait,
}

impl View for LoopOp {
    type V = LoopOpView;

    open spec fn view(&self) -> LoopOpView {
        match *self {
            LoopOp::Redraw { force } => LoopOpView::Redraw { force },
            LoopOp::FlushDisplay => LoopOpView::FlushDisplay,
            LoopOp::Deliver { module, input } => LoopOpView::Deliver { module, input: input@ },
            LoopOp::Exit => LoopOpView::Exit,
            LoopOp::Wait => LoopOpView::Wait,
        }
    }
}

/// The views of `ops`.
pub open spec fn op_views(ops: Seq<LoopOp>) -> Seq<LoopOpView> {
    ops.map_values(|o: LoopOp| o@)
}

/// All that the dashboard knows.
#[derive(Debug)]
pub struct App {
    pub cmd_queue: CmdQueue,
    pub modules: Vec<Module>,
    pub inner: AppInner,
    pub pointer: Pointer,
}

/// The state of an [`App`], with its parts as views.
#[verifier::ext_equal]
pub struct AppView {
    pub cmd_queue: Seq<CmdView>,
    pub modules: Seq<Module>,
    pub inner: InnerView,
    pub pointer: Pointer,
}

impl View for App {
    type V = AppView;

    open spec fn view(&self) -> AppView {
        AppView {
            cmd_queue: self.cmd_queue@,
            modules: self.modules@,
            inner: self.inner@,
            pointer: self.pointer,
        }
    }
}

/// Whether the panel at `i` is the first that the pixel `pos` belongs to.
pub open spec fn is_first_hit(modules: Seq<Module>, pos: (u32, u32), i: int) -> bool {
    &&& 0 <= i < modules.len()
    &&& modules[i].intersects(pos)
    &&& forall|j: int| 0 <= j < i ==> !(#[trigger] modules[j]).intersects(pos)
}

/// The first panel that the pixel `pos` belongs to, if there is one.
pub open spec fn module_at(modules: Seq<Module>, pos: (u32, u32)) -> Option<int> {
    if exists|i: int| is_first_hit(modules, pos, i) {
        Some(choose|i: int| is_first_hit(modules, pos, i))
    } else {
        None
    }
}

impl AppView {
    /// What holds of the state at any time: the commands that wait are
    /// consistent, and once there are panels, there can be drawn and each
    /// panel has its place.
    pub open spec fn wf(self) -> bool {
        &&& all_consistent(self.cmd_queue)
        &&& self.modules.len() > 0 ==> drawable(self.inner.dimensions)
        &&& forall|i: int|
            0 <= i < self.modules.len() ==> fits(
                (#[trigger] self.modules[i]).bounds,
                (content(self.inner.dimensions).2, content(self.inner.dimensions).3),
            )
    }

    /// The state with `cmds` behind the commands that wait.
    pub open spec fn with_commands(self, cmds: Seq<CmdView>) -> AppView {
        AppView { cmd_queue: self.cmd_queue + cmds, ..self }
    }

    /// The state with the panels of `available`, the window sized for them,
    /// but its surfaces still as they are.
    pub open spec fn with_panels(self, available: Available) -> AppView {
        AppView {
            modules: layout_of(available),
            inner: InnerView {
                dimensions: window_size_of(layout_of(available)),
                ..self.inner
            },
            ..self
        }
    }

    /// The input `input` for each panel.
    pub open spec fn deliver_to_all(self, input: InputView) -> Seq<LoopOpView> {
        Seq::new(
            self.modules.len(),
            |i: int| LoopOpView::Deliver { module: i as usize, input },
        )
    }

    /// What `cmd` calls for.
    pub open spec fn ops_for(self, cmd: CmdView) -> Seq<LoopOpView> {
        match cmd {
            CmdView::Exit => seq![LoopOpView::Exit],
            CmdView::Draw => seq![LoopOpView::Redraw { force: false }, LoopOpView::FlushDisplay],
            CmdView::ForceDraw => seq![
                LoopOpView::Redraw { force: true },
                LoopOpView::FlushDisplay,
            ],
            CmdView::MouseInput { pos, input } => match module_at(self.modules, pos) {
                Some(i) => seq![
                    LoopOpView::Deliver {
                        module: i as usize,
                        input: input.relative_to(
                            (self.modules[i].bounds.0, self.modules[i].bounds.1),
                        ),
                    },
                ],
                None => Seq::empty(),
            },
            CmdView::KeyboardInput { input } => self.deliver_to_all(input),
        }
    }

    /// The commands that `cmd` leads to: an input that reached the panels, be
    /// it of the mouse to one or of the keyboard to all, leads to a redraw.
    pub open spec fn follow_up(self, cmd: CmdView) -> Seq<CmdView> {
        match cmd {
            CmdView::MouseInput { pos, .. } => if module_at(self.modules, pos) is Some {
                seq![CmdView::Draw]
            } else {
                Seq::empty()
            },
            CmdView::KeyboardInput { .. } => seq![CmdView::Draw],
            _ => Seq::empty(),
        }
    }

    /// What the main loop is to do: what the oldest command calls for, or,
    /// when none is left, to wait.
    pub open spec fn next_ops(self) -> Seq<LoopOpView> {
        if self.cmd_queue.len() > 0 {
            self.ops_for(self.cmd_queue[0])
        } else {
            seq![LoopOpView::FlushDisplay, LoopOpView::Wait]
        }
    }

    /// The state once the oldest command is taken out.
    pub open spec fn after_next(self) -> AppView {
        if self.cmd_queue.len() > 0 {
            AppView {
                cmd_queue: self.cmd_queue.skip(1) + self.follow_up(self.cmd_queue[0]),
                ..self
            }
        } else {
            self
        }
    }

    /// A redraw that is about to begin.
    pub open spec fn redraw_of(self, force: bool) -> RedrawView {
        RedrawView {
            force,
            dimensions: self.inner.dimensions,
            modules: self.modules,
            surfaces: self.inner.surfaces.len() as usize,
            phase: Phase::Pool,
            index: 0,
            damage: Seq::empty(),
        }
    }
}

/// The command of a keyboard event, or none.
pub open spec fn key_commands(event: KbEvent) -> Seq<CmdView> {
    match key_command(event) {
        Some(cmd) => seq![cmd],
        None => Seq::empty(),
    }
}

impl App {
    /// No panels, no monitors, and nothing to do.
    pub fn new() -> (r: App)
        ensures
            r@.cmd_queue == Seq::<CmdView>::empty(),
            r@.modules == Seq::<Module>::empty(),
            r@.inner == InnerView::initial(),
            r@.pointer == Pointer::initial(),
            r@.wf(),
    {
        App {
            cmd_queue: CmdQueue::new(),
            modules: Vec::new(),
            inner: AppInner::new(),
            pointer: Pointer::new(),
        }
    }

    /// Places the panels that are at hand, gives the window the size that
    /// they need, and makes the surfaces anew.
    pub fn set_modules(&mut self, available: Available) -> (ops: Vec<OutputOp>)
        requires
            old(self)@.inner.generations_left(),
        ensures
            final(self)@ == (AppView {
                inner: old(self)@.with_panels(available).inner.rebuilt(),
                ..old(self)@.with_panels(available)
            }),
            all_consistent(old(self)@.cmd_queue) ==> final(self)@.wf(),
            ops@ == old(self)@.with_panels(available).inner.rebuild_ops(),
    {
        proof {
            law_window_of_layout(available);
            assert forall|i: int| 0 <= i < layout_of(available).len() implies fits(
                (#[trigger] layout_of(available)[i]).bounds,
                (
                    content(window_size_of(layout_of(available))).2,
                    content(window_size_of(layout_of(available))).3,
                ),
            ) by {
                law_panels_fit_their_window(layout_of(available), i);
            }
        }
        self.modules = layout(available);
        let dimensions = window_size(&self.modules);
        self.inner.set_dimensions(dimensions);
        self.inner.outputs_changed()
    }

    /// The first panel that the pixel `pos` belongs to.
    pub fn get_module(&self, pos: (u32, u32)) -> (r: Option<usize>)
        ensures
            match r {
                Some(i) => module_at(self@.modules, pos) == Some(i as int) && is_first_hit(
                    self@.modules,
                    pos,
                    i as int,
                ),
                None => module_at(self@.modules, pos) is None && forall|i: int|
                    0 <= i < self@.modules.len() ==> !(#[trigger] self@.modules[i]).intersects(
                        pos,
                    ),
            },
    {
        let mut i: usize = 0;
        while i < self.modules.len()
            invariant
                i <= self.modules@.len(),
                forall|j: int| 0 <= j < i ==> !(#[trigger] self.modules@[j]).intersects(pos),
            decreases self.modules@.len() - i,
        {
            if self.modules[i].intersect(pos) {
                proof {
                    assert(is_first_hit(self.modules@, pos, i as int));
                    lemma_first_hit_is_unique(self.modules@, pos, i as int);
                }
                return Some(i);
            }
            i += 1;
        }
        None
    }

    /// Takes in what the keyboard reports.
    pub fn keyboard(&mut self, event: KbEvent)
        ensures
            final(self)@ == old(self)@.with_commands(key_commands(event)),
            old(self)@.wf() ==> final(self)@.wf(),
    {
        if let Some(cmd) = keyboard_event(event) {
            self.cmd_queue.push_back(cmd);
        }
    }

    /// Takes in what the pointer reports.
    pub fn pointer(&mut self, event: PointerEvent)
        ensures
            final(self)@ == (AppView {
                pointer: old(self)@.pointer.after(event),
                ..old(self)@.with_commands(old(self)@.pointer.commands(event))
            }),
            old(self)@.wf() ==> final(self)@.wf(),
    {
        proof {
            law_pointer_commands_are_consistent(self.pointer, event);
        }
        let cmds = self.pointer.handle(event);
        self.cmd_queue.push_all(cmds);
    }

    /// Takes in a request for a redraw: of what changed if `update`, else of
    /// everything.
    pub fn request_draw(&mut self, update: bool)
        ensures
            final(self)@ == old(self)@.with_commands(seq![draw_request_view(update)]),
            old(self)@.wf() ==> final(self)@.wf(),
    {
        self.cmd_queue.push_back(draw_request(update));
    }

    /// Takes out the oldest command and gives back what it calls for.
    pub fn next(&mut self) -> (ops: Vec<LoopOp>)
        requires
            old(self)@.cmd_queue.len() > 0 ==> old(self)@.cmd_queue[0].consistent(),
        ensures
            final(self)@ == old(self)@.after_next(),
            old(self)@.wf() ==> final(self)@.wf(),
            op_views(ops@) == old(self)@.next_ops(),
    {
        let ghost before = self@;
        let mut ops: Vec<LoopOp> = Vec::new();
        let cmd = match self.cmd_queue.pop_front() {
            Some(cmd) => cmd,
            None => {
                ops.push(LoopOp::FlushDisplay);
                ops.push(LoopOp::Wait);
                return ops;
            },
        };
        assert(before.cmd_queue[0].consistent());
        match cmd {
            Cmd::Exit => {
                ops.push(LoopOp::Exit);
            },
            Cmd::Draw => {
                ops.push(LoopOp::Redraw { force: false });
                ops.push(LoopOp::FlushDisplay);
            },
            Cmd::ForceDraw => {
                ops.push(LoopOp::Redraw { force: true });
                ops.push(LoopOp::FlushDisplay);
            },
            Cmd::MouseInput { pos, input } => {
                if let Some(module) = self.get_module(pos) {
                    let bounds = self.modules[module].get_bounds();
                    let input = input.offset((bounds.0, bounds.1));
                    ops.push(LoopOp::Deliver { module, input });
                    self.cmd_queue.push_back(Cmd::Draw);
                }
            },
            Cmd::KeyboardInput { input } => {
                let ghost all = before.deliver_to_all(input@);
                let mut module: usize = 0;
                while module < self.modules.len()
                    invariant
                        module <= self.modules@.len(),
                        self.modules@ == before.modules,
                        all == before.deliver_to_all(input@),
                        op_views(ops@) == all.take(module as int),
                    decreases self.modules@.len() - module,
                {
                    let ghost done = ops@;
                    ops.push(LoopOp::Deliver { module, input: input.clone() });
                    assert(op_views(ops@) == op_views(done).push(ops@.last()@));
                    module += 1;
                }
                self.cmd_queue.push_back(Cmd::Draw);
            },
        }
        assert(op_views(ops@) == before.next_ops());
        assert(self@ == before.after_next());
        ops
    }

    /// Begins a redraw, unless a surface has not been configured yet.
    pub fn redraw(&self, force: bool) -> (r: Option<Redraw>)
        ensures
            match r {
                Some(redraw) => self@.inner.ready() && redraw@ == self@.redraw_of(force)
                    && redraw@.wf(),
                None => !self@.inner.ready(),
            },
    {
        if !self.inner.is_ready() {
            return None;
        }
        let modules = self.modules.clone();
        assert(modules@ == self.modules@);
        Some(
            Redraw {
                force,
                dimensions: self.inner.dimensions,
                modules,
                surfaces: self.inner.surfaces.len(),
                phase: Phase::Pool,
                index: 0,
                damage: Vec::new(),
            },
        )
    }

    /// How many bytes are to be given the background's color before anything
    /// is drawn; none if no memory pool is free.
    pub fn wipe(&self, pool_free: bool) -> (r: Option<usize>)
        requires
            pool_free ==> countable(self@.inner.dimensions),
        ensures
            match r {
                Some(bytes) => pool_free && bytes == byte_count(self@.inner.dimensions),
                None => !pool_free,
            },
    {
        if pool_free {
            Some(pool_bytes(self.inner.dimensions))
        } else {
            None
        }
    }
}

proof fn lemma_first_hit_is_unique(modules: Seq<Module>, pos: (u32, u32), i: int)
    requires
        is_first_hit(modules, pos, i),
    ensures
        module_at(modules, pos) == Some(i),
{
    let k = choose|k: int| is_first_hit(modules, pos, k);
    assert(is_first_hit(modules, pos, k));
    if k < i {
        assert(!modules[k].intersects(pos));
    } else if i < k {
        assert(!modules[i].intersects(pos));
    }
}

/// What a panel is told of the mouse happened on that panel: counted from its
/// upper left corner, the place lies within its width and height.
pub proof fn law_panels_see_only_themselves(app: AppView, pos: (u32, u32), input: InputView)
    requires
        (CmdView::MouseInput { pos, input }).consistent(),
        module_at(app.modules, pos) is Some,
        input.place() is Some,
    ensures
        ({
            let i = module_at(app.modules, pos)->0;
            let bounds = app.modules[i].bounds;
            let place = input.relative_to((bounds.0, bounds.1)).place()->0;
            &&& 0 <= i < app.modules.len()
            &&& place.0 < bounds.2
            &&& place.1 < bounds.3
            &&& bounds.0 + place.0 == pos.0
            &&& bounds.1 + place.1 == pos.1
        }),
{
    let i = choose|i: int| is_first_hit(app.modules, pos, i);
    assert(is_first_hit(app.modules, pos, i));
}

/// In a layout a pixel belongs to one panel at most, so that the first panel
/// found is the only one.
pub proof fn law_pixel_has_one_panel(available: Available, pos: (u32, u32), i: int)
    requires
        0 <= i < layout_of(available).len(),
        layout_of(available)[i].intersects(pos),
    ensures
        module_at(layout_of(available), pos) == Some(i),
{
    let modules = layout_of(available);
    assert forall|j: int| 0 <= j < i implies !(#[trigger] modules[j]).intersects(pos) by {
        law_panels_do_not_overlap(available, j, i);
        assert(!(covers(modules[j].bounds, pos) && covers(modules[i].bounds, pos)));
    }
    assert(is_first_hit(modules, pos, i));
    lemma_first_hit_is_unique(modules, pos, i);
}

/// Commands are handled in the order in which they came: taking one out
/// leaves the others in front of whatever comes after them.
pub proof fn law_commands_keep_their_order(app: AppView, i: int)
    requires
        0 < i < app.cmd_queue.len(),
    ensures
        app.after_next().cmd_queue.len() >= i,
        app.after_next().cmd_queue[i - 1] == app.cmd_queue[i],
{
}

/// An input that reaches a panel is followed by a redraw.
pub proof fn law_input_leads_to_redraw(app: AppView)
    requires
        app.cmd_queue.len() > 0,
        exists|i: int|
            0 <= i < app.next_ops().len() && (#[trigger] app.next_ops()[i]) is Deliver,
    ensures
        app.after_next().cmd_queue.len() > 0,
        app.after_next().cmd_queue.last() == CmdView::Draw,
{
}

/// Once the panels are placed, a redraw can begin whenever a memory pool is
/// free, and every panel has room in it.
pub proof fn law_placed_panels_can_be_drawn<E>(app: AppView, force: bool, free: bool)
    requires
        app.wf(),
        app.modules.len() > 0,
    ensures
        app.redraw_of(force).wf(),
        app.redraw_of(force).expects(DrawEventView::<E>::Pool { free }),
        all_have_room(app.redraw_of(force)),
{
    let s = app.redraw_of(force);
    assert forall|i: int| 0 <= i < s.modules.len() implies #[trigger] has_room(s, i) by {
        assert(app.modules[i] == s.modules[i]);
    }
}

/// The redraw of `app` up to where it asks the first panel, with a memory
/// pool free.
pub open spec fn begun<E>(app: AppView, force: bool) -> Run<E> {
    Run { state: app.redraw_of(force), actions: Seq::empty() }.after(
        DrawEventView::Pool { free: true },
    ).after(DrawEventView::Resized)
}

/// A redraw of placed panels, with a memory pool free and no panel failing,
/// asks every panel, once each and in their order, and lets just those draw
/// that have something new, each at its place in the window. It then shows
/// their damage on every surface; if there is none, it shows nothing.
pub proof fn law_redraw_shows_what_changed<E>(
    app: AppView,
    force: bool,
    answers: Seq<Answer<E>>,
)
    requires
        app.wf(),
        app.modules.len() > 0,
        answers.len() == app.modules.len(),
        forall|i: int|
            0 <= i < answers.len() ==> !((#[trigger] answers[i]) is UpdateFailed) && !(
            answers[i] is DrawFailed),
    ensures
        updates_in(begun(app, force).visited(answers).actions) == Seq::new(
            app.modules.len(),
            |i: int| DrawActionView::<E>::Update { module: i as usize, force },
        ),
        draws_in(begun(app, force).visited(answers).actions) == draws_between(
            app.redraw_of(force),
            answers,
            0,
            answers.len() as int,
        ),
        ({
            let damage = damage_between(answers, 0, answers.len() as int);
            begun(app, force).visited(answers).state.action(DrawEventView::<E>::Flushed)
                == if damage.len() == 0 {
                DrawActionView::<E>::Finish
            } else {
                DrawActionView::Present {
                    ops: seq![buffer_op(app.inner.dimensions)] + all_surface_ops(
                        app.redraw_of(force).surfaces as int,
                        damage,
                    ),
                }
            }
        }),
{
    law_placed_panels_can_be_drawn::<E>(app, force, true);
    let run = begun::<E>(app, force);
    assert forall|i: int| 0 <= i < answers.len() implies !(#[trigger] goes_wrong(
        run.state,
        answers,
        i,
    )) by {
        assert(has_room(app.redraw_of(force), i));
        assert(!(answers[i] is UpdateFailed) && !(answers[i] is DrawFailed));
    }
    law_redraw_collects_damage(run, answers);
    let damage = damage_between(answers, 0, answers.len() as int);
    assert(run.state.damage + damage == damage);
    lemma_begun_actions::<E>(app, force);
    lemma_draws_same_place(app.redraw_of(force), run.state, answers, 0, answers.len() as int);
}

proof fn lemma_begun_actions<E>(app: AppView, force: bool)
    requires
        app.modules.len() > 0,
    ensures
        updates_in(begun::<E>(app, force).actions) == seq![
            DrawActionView::<E>::Update { module: 0, force },
        ],
        draws_in(begun::<E>(app, force).actions) == Seq::<DrawActionView<E>>::empty(),
{
    let none = Seq::<DrawActionView<E>>::empty();
    let resize = app.redraw_of(force).action(DrawEventView::<E>::Pool { free: true });
    let ask = DrawActionView::<E>::Update { module: 0, force };
    reveal(Seq::filter);
    lemma_one_more_action(none, resize);
    lemma_one_more_action(none.push(resize), ask);
    assert(begun::<E>(app, force).actions == none.push(resize).push(ask));
}

/// A redraw whose visit to the panel at `k` is the first to go wrong ends with
/// what went wrong there: the panels up to `k` are asked, once each and in
/// their order, those of them draw that have something new and a place, no
/// panel behind `k` is asked or draws, and nothing is shown.
pub proof fn law_redraw_stops_at_first_failure<E>(
    app: AppView,
    force: bool,
    answers: Seq<Answer<E>>,
    k: int,
)
    requires
        drawable(app.inner.dimensions),
        answers.len() == app.modules.len() <= usize::MAX,
        0 <= k < answers.len(),
        goes_wrong(app.redraw_of(force), answers, k),
        forall|i: int|
            0 <= i < k ==> !(#[trigger] goes_wrong(app.redraw_of(force), answers, i)),
    ensures
        ({
            let end = begun(app, force).visited(answers);
            &&& end.state.phase is Done
            &&& end.actions.len() > 0
            &&& end.actions.last() == failure(app.redraw_of(force), answers, k)
            &&& forall|i: int|
                0 <= i < end.actions.len() ==> harmless(#[trigger] end.actions[i], k)
            &&& updates_in(end.actions) == updates_between::<E>(force, 0, k + 1)
            &&& draws_in(end.actions) == draws_between(app.redraw_of(force), answers, 0, k) + (
            if answers[k] is DrawFailed && has_room(app.redraw_of(force), k) {
                seq![draw_of(app.redraw_of(force), k)]
            } else {
                Seq::empty()
            })
        }),
{
    let s = app.redraw_of(force);
    let run = begun::<E>(app, force);
    assert(goes_wrong(run.state, answers, k));
    assert forall|i: int| 0 <= i < k implies !(#[trigger] goes_wrong(run.state, answers, i)) by {
        assert(!goes_wrong(s, answers, i));
    }
    law_first_failure_ends_redraw(run, answers, k);
    lemma_begun_actions::<E>(app, force);
    lemma_draws_same_place(s, run.state, answers, 0, k);
    assert(updates_in(run.actions) + updates_between(force, 1, k + 1) == updates_between::<E>(
        force,
        0,
        k + 1,
    ));
    assert(failure(run.state, answers, k) == failure(s, answers, k));
}

/// Monitors that come and go, and surfaces that are configured, leave the
/// state well-formed.
pub proof fn law_outputs_keep_app_wf(app: AppView, event: GlobalEvent, generation: u64)
    requires
        app.wf(),
    ensures
        (AppView { inner: app.inner.after_global(event), ..app }).wf(),
        (AppView { inner: app.inner.configured(generation), ..app }).wf(),
        (AppView { inner: app.inner.rebuilt(), ..app }).wf(),
{
}

/// The view of the state and of an operation loses nothing.
pub proof fn law_views_keep_the_app(app: App, ops: Seq<LoopOp>, i: int)
    ensures
        app@.cmd_queue == app.cmd_queue@,
        app@.modules == app.modules@,
        app@.inner == app.inner@,
        app@.pointer == app.pointer,
        op_views(ops).len() == ops.len(),
        0 <= i < ops.len() ==> match ops[i] {
            LoopOp::Redraw { force } => op_views(ops)[i] == (LoopOpView::Redraw { force }),
            LoopOp::FlushDisplay => op_views(ops)[i] == LoopOpView::FlushDisplay,
            LoopOp::Deliver { module, input } => op_views(ops)[i] == (LoopOpView::Deliver {
                module,
                input: input@,
            }),
            LoopOp::Exit => op_views(ops)[i] == LoopOpView::Exit,
            LoopOp::Wait => op_views(ops)[i] == LoopOpView::Wait,
        },
{
}

/// Commands that come in wait behind the others, in their order, and change
/// nothing else.
pub proof fn law_new_commands_wait_behind(app: AppView, cmds: Seq<CmdView>, i: int)
    ensures
        ({
            let later = app.with_commands(cmds);
            &&& later.modules == app.modules
            &&& later.inner == app.inner
            &&& later.pointer == app.pointer
            &&& later.cmd_queue.len() == app.cmd_queue.len() + cmds.len()
            &&& 0 <= i < app.cmd_queue.len() ==> later.cmd_queue[i] == app.cmd_queue[i]
            &&& 0 <= i < cmds.len() ==> later.cmd_queue[app.cmd_queue.len() + i] == cmds[i]
        }),
{
}

/// Of a key that goes down just one command waits: for escape the one to end,
/// for any other key its input, with its symbol and its text or none. Of
/// anything else of the keyboard none does.
pub proof fn law_keys_lead_to_commands(keysym: u32, utf8: Option<String>)
    ensures
        ({
            let cmds = key_commands(KbEvent::Key { keysym, utf8, state: KeyState::Pressed });
            &&& cmds.len() == 1
            &&& keysym == 0xff1b ==> cmds[0] == CmdView::Exit
            &&& keysym != 0xff1b ==> {
                &&& cmds[0] matches CmdView::KeyboardInput {
                    input: InputView::Keypress { key, interpreted },
                }
                &&& key == keysym
                &&& interpreted is Some <==> utf8 is Some
                &&& utf8 matches Some(text) ==> interpreted == Some(text@)
            }
        }),
        key_commands(KbEvent::Key { keysym, utf8, state: KeyState::Released }).len() == 0,
        key_commands(KbEvent::Other).len() == 0,
{
}

/// The panel found for a pixel is the first one that the pixel lies on, by its
/// bounds. None is found just if the pixel lies on none.
pub proof fn law_pixel_finds_its_panel(modules: Seq<Module>, pos: (u32, u32))
    ensures
        match module_at(modules, pos) {
            Some(i) => {
                let b = modules[i].bounds;
                &&& 0 <= i < modules.len()
                &&& b.0 <= pos.0 < b.0 + b.2
                &&& b.1 <= pos.1 < b.1 + b.3
                &&& forall|j: int|
                    0 <= j < i ==> {
                        let c = (#[trigger] modules[j]).bounds;
                        !(c.0 <= pos.0 < c.0 + c.2 && c.1 <= pos.1 < c.1 + c.3)
                    }
            },
            None => forall|j: int|
                0 <= j < modules.len() ==> {
                    let c = (#[trigger] modules[j]).bounds;
                    !(c.0 <= pos.0 < c.0 + c.2 && c.1 <= pos.1 < c.1 + c.3)
                },
        },
{
    if module_at(modules, pos) is Some {
        let i = choose|i: int| is_first_hit(modules, pos, i);
        assert(is_first_hit(modules, pos, i));
        assert forall|j: int| 0 <= j < i implies {
            let c = (#[trigger] modules[j]).bounds;
            !(c.0 <= pos.0 < c.0 + c.2 && c.1 <= pos.1 < c.1 + c.3)
        } by {
            assert(!modules[j].intersects(pos));
        }
    } else {
        assert forall|j: int| 0 <= j < modules.len() implies {
            let c = (#[trigger] modules[j]).bounds;
            !(c.0 <= pos.0 < c.0 + c.2 && c.1 <= pos.1 < c.1 + c.3)
        } by {
            if modules[j].intersects(pos) {
                lemma_some_hit_is_first(modules, pos, j);
            }
        }
    }
}

proof fn lemma_some_hit_is_first(modules: Seq<Module>, pos: (u32, u32), j: int)
    requires
        0 <= j < modules.len(),
        modules[j].intersects(pos),
    ensures
        exists|i: int| is_first_hit(modules, pos, i),
    decreases j,
{
    if exists|i: int| 0 <= i < j && (#[trigger] modules[i]).intersects(pos) {
        let i = choose|i: int| 0 <= i < j && (#[trigger] modules[i]).intersects(pos);
        lemma_some_hit_is_first(modules, pos, i);
    } else {
        assert(is_first_hit(modules, pos, j));
    }
}

/// When a command of the mouse is at the front, and the panel at `i` is the
/// first that its pixel lies on, that panel is told of it, and no other: of a
/// scroll by the same distance, of a click of the same button, at the place
/// counted from the panel's corner. A redraw waits then behind all else.
pub proof fn law_mouse_input_reaches_its_panel(
    app: AppView,
    pos: (u32, u32),
    input: InputView,
    i: int,
)
    requires
        app.cmd_queue.len() > 0,
        app.cmd_queue[0] == (CmdView::MouseInput { pos, input }),
        match input {
            InputView::Scroll { pos: p, .. } => p == pos,
            InputView::Click { pos: p, .. } => p == pos,
            InputView::Keypress { .. } => true,
        },
        0 <= i < app.modules.len() <= usize::MAX,
        app.modules[i].bounds.0 <= pos.0 < app.modules[i].bounds.0 + app.modules[i].bounds.2,
        app.modules[i].bounds.1 <= pos.1 < app.modules[i].bounds.1 + app.modules[i].bounds.3,
        forall|j: int|
            0 <= j < i ==> {
                let c = (#[trigger] app.modules[j]).bounds;
                !(c.0 <= pos.0 < c.0 + c.2 && c.1 <= pos.1 < c.1 + c.3)
            },
    ensures
        ({
            let b = app.modules[i].bounds;
            &&& app.next_ops().len() == 1
            &&& app.next_ops()[0] matches LoopOpView::Deliver { module, input: told }
            &&& module == i
            &&& match input {
                InputView::Scroll { x, y, .. } => {
                    &&& told matches InputView::Scroll { pos: p, x: x2, y: y2 }
                    &&& b.0 + p.0 == pos.0
                    &&& b.1 + p.1 == pos.1
                    &&& x2 == x
                    &&& y2 == y
                },
                InputView::Click { button, .. } => {
                    &&& told matches InputView::Click { pos: p, button: button2 }
                    &&& b.0 + p.0 == pos.0
                    &&& b.1 + p.1 == pos.1
                    &&& button2 == button
                },
                InputView::Keypress { .. } => told == input,
            }
        }),
        app.after_next() == (AppView {
            cmd_queue: app.cmd_queue.skip(1).push(CmdView::Draw),
            ..app
        }),
{
    assert forall|j: int| 0 <= j < i implies !(#[trigger] app.modules[j]).intersects(pos) by {
        let c = app.modules[j].bounds;
        assert(!(c.0 <= pos.0 < c.0 + c.2 && c.1 <= pos.1 < c.1 + c.3));
    }
    assert(is_first_hit(app.modules, pos, i));
    lemma_first_hit_is_unique(app.modules, pos, i);
}

/// A command of the mouse whose pixel lies on no panel is taken out, and no
/// panel is told of it; no redraw follows.
pub proof fn law_mouse_input_beside_the_panels_is_dropped(
    app: AppView,
    pos: (u32, u32),
    input: InputView,
)
    requires
        app.cmd_queue.len() > 0,
        app.cmd_queue[0] == (CmdView::MouseInput { pos, input }),
        forall|j: int|
            0 <= j < app.modules.len() ==> {
                let c = (#[trigger] app.modules[j]).bounds;
                !(c.0 <= pos.0 < c.0 + c.2 && c.1 <= pos.1 < c.1 + c.3)
            },
    ensures
        app.next_ops().len() == 0,
        app.after_next() == (AppView { cmd_queue: app.cmd_queue.skip(1), ..app }),
{
    if module_at(app.modules, pos) is Some {
        let i = choose|i: int| is_first_hit(app.modules, pos, i);
        assert(is_first_hit(app.modules, pos, i));
        assert(app.modules[i].intersects(pos));
    }
}

/// When a command of the keyboard is at the front, every panel is told of its
/// input, in the order of the panels, once each and as it is. A redraw waits
/// then behind all else.
pub proof fn law_keyboard_input_reaches_all_panels(app: AppView, input: InputView)
    requires
        app.cmd_queue.len() > 0,
        app.cmd_queue[0] == (CmdView::KeyboardInput { input }),
        app.modules.len() <= usize::MAX,
    ensures
        app.next_ops().len() == app.modules.len(),
        forall|i: int|
            0 <= i < app.modules.len() ==> {
                &&& (#[trigger] app.next_ops()[i]) matches LoopOpView::Deliver {
                    module,
                    input: told,
                }
                &&& module == i
                &&& told == input
            },
        app.after_next() == (AppView {
            cmd_queue: app.cmd_queue.skip(1).push(CmdView::Draw),
            ..app
        }),
{
}

/// A command to draw leads to a redraw, forced just if it says so, and what it
/// has for the compositor is sent out then. A command to end leads to the end.
/// Both are taken out. When no command is left, what waits for the compositor
/// is sent out, and then there is nothing to do but wait.
pub proof fn law_other_commands_do_what_they_say(app: AppView)
    ensures
        app.cmd_queue.len() == 0 ==> {
            &&& app.next_ops().len() == 2
            &&& app.next_ops()[0] == LoopOpView::FlushDisplay
            &&& app.next_ops()[1] == LoopOpView::Wait
            &&& app.after_next() == app
        },
        app.cmd_queue.len() > 0 && (app.cmd_queue[0] is Draw || app.cmd_queue[0] is ForceDraw)
            ==> {
            &&& app.next_ops().len() == 2
            &&& app.next_ops()[0] matches LoopOpView::Redraw { force }
            &&& force <==> app.cmd_queue[0] is ForceDraw
            &&& app.next_ops()[1] == LoopOpView::FlushDisplay
            &&& app.after_next() == (AppView { cmd_queue: app.cmd_queue.skip(1), ..app })
        },
        app.cmd_queue.len() > 0 && app.cmd_queue[0] is Exit ==> {
            &&& app.next_ops().len() == 1
            &&& app.next_ops()[0] == LoopOpView::Exit
            &&& app.after_next() == (AppView { cmd_queue: app.cmd_queue.skip(1), ..app })
        },
{
}

/// From the pointer to the panel. With no command waiting, let the pointer be
/// `dx` and `dy` pixels inside the panel at `i`, as it stands in the window,
/// and let that be the first panel there. When a click waits and no scroll, or
/// a scroll and no click, a frame and the next round of the main loop tell that
/// panel of it, at `dx` and `dy`, and no other panel.
pub proof fn law_pointer_reaches_the_panel_under_it(app: AppView, i: int, dx: u32, dy: u32)
    requires
        app.cmd_queue.len() == 0,
        0 <= i < app.modules.len() <= usize::MAX,
        dx < app.modules[i].bounds.2,
        dy < app.modules[i].bounds.3,
        app.pointer.pos.0 == 20 + app.modules[i].bounds.0 + dx,
        app.pointer.pos.1 == 20 + app.modules[i].bounds.1 + dy,
        app.pointer.btn_clicked != (app.pointer.vert_scroll != 0 || app.pointer.horiz_scroll != 0),
        forall|j: int|
            0 <= j < i ==> {
                let c = (#[trigger] app.modules[j]).bounds;
                !(20 + c.0 <= app.pointer.pos.0 < 20 + c.0 + c.2 && 20 + c.1 <= app.pointer.pos.1
                    < 20 + c.1 + c.3)
            },
    ensures
        ({
            let framed = AppView {
                pointer: app.pointer.after(PointerEvent::Frame),
                ..app.with_commands(app.pointer.commands(PointerEvent::Frame))
            };
            &&& framed.next_ops().len() == 1
            &&& framed.next_ops()[0] matches LoopOpView::Deliver { module, input }
            &&& module == i
            &&& input == if app.pointer.btn_clicked {
                InputView::Click { pos: (dx, dy), button: app.pointer.btn }
            } else {
                InputView::Scroll {
                    pos: (dx, dy),
                    x: app.pointer.horiz_scroll,
                    y: app.pointer.vert_scroll,
                }
            }
            &&& framed.after_next().cmd_queue == seq![CmdView::Draw]
        }),
{
    let framed = AppView {
        pointer: app.pointer.after(PointerEvent::Frame),
        ..app.with_commands(app.pointer.commands(PointerEvent::Frame))
    };
    let b = app.modules[i].bounds;
    let pos = ((b.0 + dx) as u32, (b.1 + dy) as u32);
    let input = if app.pointer.btn_clicked {
        InputView::Click { pos, button: app.pointer.btn }
    } else {
        InputView::Scroll { pos, x: app.pointer.horiz_scroll, y: app.pointer.vert_scroll }
    };
    law_frame_passes_on_what_waits(app.pointer);
    assert(framed.cmd_queue == seq![CmdView::MouseInput { pos, input }]);
    assert forall|j: int| 0 <= j < i implies {
        let c = (#[trigger] framed.modules[j]).bounds;
        !(c.0 <= pos.0 < c.0 + c.2 && c.1 <= pos.1 < c.1 + c.3)
    } by {
        assert(framed.modules[j] == app.modules[j]);
    }
    law_mouse_input_reaches_its_panel(framed, pos, input, i);
    assert(framed.after_next().cmd_queue == seq![CmdView::Draw]);
}

/// A redraw begins with the window, the panels and the surfaces that there are,
/// before the first panel, and without any damage.
pub proof fn law_redraw_is_of_what_is_there(app: AppView, force: bool)
    requires
        app.inner.surfaces.len() <= usize::MAX,
    ensures
        app.redraw_of(force).force == force,
        app.redraw_of(force).dimensions == app.inner.dimensions,
        app.redraw_of(force).modules == app.modules,
        app.redraw_of(force).surfaces == app.inner.surfaces.len(),
        app.redraw_of(force).phase is Pool,
        app.redraw_of(force).index == 0,
        app.redraw_of(force).damage.len() == 0,
{
}

/// The panels that are at hand replace those that were there, and the window
/// gets a width of 1272 pixels and a height of 800 with the launcher or of 752
/// without it. The commands that wait, the pointer and the monitors stay.
pub proof fn law_panels_bring_their_window(app: AppView, available: Available)
    ensures
        ({
            let placed = app.with_panels(available);
            &&& placed.modules == layout_of(available)
            &&& placed.inner.dimensions.0 == 1272
            &&& placed.inner.dimensions.1 == if available.launcher {
                800int
            } else {
                752
            }
            &&& placed.cmd_queue == app.cmd_queue
            &&& placed.pointer == app.pointer
            &&& placed.inner.outputs == app.inner.outputs
            &&& placed.inner.surfaces == app.inner.surfaces
            &&& placed.inner.compositor == app.inner.compositor
            &&& placed.inner.shell == app.inner.shell
            &&& placed.inner.generation == app.inner.generation
            &&& placed.inner.configured_surfaces == app.inner.configured_surfaces
        }),
{
    law_window_of_layout(available);
}

/// From the panel to the monitor. When no panel fails in a redraw, every
/// rectangle that the panel at `i` drew is told, as it was drawn, to every
/// surface: behind the surface's attaching and all that the panels before `i`
/// drew, and before its commit.
pub proof fn law_what_a_panel_drew_reaches_every_surface<E>(
    app: AppView,
    force: bool,
    answers: Seq<Answer<E>>,
    i: int,
    k: int,
    surface: usize,
)
    requires
        app.wf(),
        app.inner.surfaces.len() <= usize::MAX,
        answers.len() == app.modules.len(),
        forall|j: int|
            0 <= j < answers.len() ==> !((#[trigger] answers[j]) is UpdateFailed) && !(
            answers[j] is DrawFailed),
        0 <= i < answers.len(),
        answers[i] is Drew,
        0 <= k < answers[i]->damage.len(),
        surface < app.inner.surfaces.len(),
    ensures
        ({
            let total = damage_between(answers, 0, answers.len() as int).len();
            let before = damage_between(answers, 0, i).len();
            let start = 1 + surface * (total + 2);
            let end = begun(app, force).visited(answers).state;
            &&& end.phase is Flush
            &&& before + k < total
            &&& end.action(DrawEventView::<E>::Flushed) matches DrawActionView::Present { ops }
            &&& 1 <= start && start + total + 1 < ops.len()
            &&& ops[start] == (PresentOp::Attach { surface, x: 0, y: 0 })
            &&& ops[start + 1 + before + k] == (PresentOp::Damage {
                surface,
                damage: answers[i]->damage[k],
            })
            &&& ops[start + 1 + total] == (PresentOp::Commit { surface })
        }),
{
    let run = begun::<E>(app, force);
    let damage = damage_between(answers, 0, answers.len() as int);
    let before = damage_between(answers, 0, i).len();
    law_placed_panels_can_be_drawn::<E>(app, force, true);
    assert forall|j: int| 0 <= j < answers.len() implies !(#[trigger] goes_wrong(
        run.state,
        answers,
        j,
    )) by {
        assert(has_room(app.redraw_of(force), j));
        assert(!(answers[j] is UpdateFailed) && !(answers[j] is DrawFailed));
    }
    law_redraw_collects_damage(run, answers);
    assert(run.state.damage + damage == damage);
    let end = run.visited(answers).state;
    assert(end.damage == damage);
    law_damage_of_each_panel(answers, 0, i, answers.len() as int);
    assert(damage[before + k] == answers[i]->damage[k]);
    law_every_surface_shows_every_rectangle::<E>(end, surface);
    assert(end.damage[before + k] == answers[i]->damage[k]);
}

} // verus!
