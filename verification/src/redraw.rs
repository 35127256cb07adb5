use vstd::prelude::*;
use crate::geometry::{
    byte_count, content, content_area, drawable, law_window_has_margins, lemma_drawable_is_signed,
    part_of, pool_bytes, subdimensions, Bounds, PIXEL_BYTES,
};
use crate::module::Module;

verus! {

/// Left edge, top edge, width and height of what was drawn, as the compositor
/// takes them.
pub type Damage = (i32, i32, i32, i32);

/// What a redraw waits for.
#[derive(Clone, Copy, Debug, PartialEq, Eq, Structural)]
pub enum Phase {
    /// Whether a memory pool is free.
    Pool,
    /// The pool's new size.
    Resize,
    /// Whether the panel at hand has anything new to show.
    Update,
    /// What the panel at hand drew.
    Draw,
    /// The pool's bytes having reached the compositor.
    Flush,
    /// Nothing: it is over.
    Done,
}

/// How the outside work that a redraw asked for came out. A panel that fails
/// does so with an `E`.
#[derive(Debug)]
pub enum DrawEvent<E> {
    Pool { free: bool },
    Resized,
    Updated { changed: bool },
    Drawn { damage: Vec<Damage> },
    /// The panel at hand could not be asked, or could not draw.
    Failed { error: E },
    Flushed,
}

/// A [`DrawEvent`] with its damage as a sequence.
pub enum DrawEventView<E> {
    Pool { free: bool },
    Resized,
    Updated { changed: bool },
    Drawn { damage: Seq<Damage> },
    Failed { error: E },
    Flushed,
}

impl<E> View for DrawEvent<E> {
    type V = DrawEventView<E>;

    open spec fn view(&self) -> DrawEventView<E> {
        match *self {
            DrawEvent::Pool { free } => DrawEventView::Pool { free },
            DrawEvent::Resized => DrawEventView::Resized,
            DrawEvent::Updated { changed } => DrawEventView::Updated { changed },
            DrawEvent::Drawn { damage } => DrawEventView::Drawn { damage: damage@ },
            DrawEvent::Failed { error } => DrawEventView::Failed { error },
            DrawEvent::Flushed => DrawEventView::Flushed,
        }
    }
}

/// How the pixels of a buffer are laid out.
#[derive(Clone, Copy, Debug, PartialEq, Eq, Structural)]
pub enum Format {
    /// Four bytes a pixel: alpha, red, green and blue.
    Argb8888,
}

/// One step of showing what was drawn.
#[derive(Clone, Copy, Debug, PartialEq, Eq)]
pub enum PresentOp {
    /// Make a buffer out of the pool, from the byte at `offset` on.
    CreateBuffer { offset: i32, width: i32, height: i32, stride: i32, format: Format },
    /// Attach that buffer to the surface at `surface`, its corner at `x` and
    /// `y` from where it was.
    Attach { surface: usize, x: i32, y: i32 },
    /// Tell that a part of the surface has changed.
    Damage { surface: usize, damage: Damage },
    /// Let the surface take effect.
    Commit { surface: usize },
}

/// What is to be done next.
#[derive(Debug, PartialEq, Eq)]
pub enum DrawAction<E> {
    /// Give the pool `bytes` bytes.
    Resize { bytes: usize },
    /// Ask the panel at `module` whether it has anything new, or let it take
    /// everything for new if `force`.
    Update { module: usize, force: bool },
    /// Let the panel at `module` draw into `area` of the window.
    Draw { module: usize, area: Bounds },
    /// Write the pool's bytes out.
    Flush,
    /// Do all of this; nothing is left then.
    Present { ops: Vec<PresentOp> },
    /// Nothing is left to do.
    Finish,
    /// Give up: the panel at `module` sticks out of the window.
    OutOfBounds { module: usize },
    /// Give up: a panel failed with `error`.
    Fail { error: E },
}

/// A [`DrawAction`] with its steps as a sequence.
pub enum DrawActionView<E> {
    Resize { bytes: usize },
    Update { module: usize, force: bool },
    Draw { module: usize, area: Bounds },
    Flush,
    Present { ops: Seq<PresentOp> },
    Finish,
    OutOfBounds { module: usize },
    Fail { error: E },
}

impl<E> View for DrawAction<E> {
    type V = DrawActionView<E>;

    open spec fn view(&self) -> DrawActionView<E> {
        match *self {
            DrawAction::Resize { bytes } => DrawActionView::Resize { bytes },
            DrawAction::Update { module, force } => DrawActionView::Update { module, force },
            DrawAction::Draw { module, area } => DrawActionView::Draw { module, area },
            DrawAction::Flush => DrawActionView::Flush,
            DrawAction::Present { ops } => DrawActionView::Present { ops: ops@ },
            DrawAction::Finish => DrawActionView::Finish,
            DrawAction::OutOfBounds { module } => DrawActionView::OutOfBounds { module },
            DrawAction::Fail { error } => DrawActionView::Fail { error },
        }
    }
}

/// A redraw under way. The panels are visited one after the other; `index` is
/// the one at hand, and `damage` what those before it drew.
#[derive(Debug)]
pub struct Redraw {
    pub force: bool,
    pub dimensions: (u32, u32),
    pub modules: Vec<Module>,
    /// How many surfaces show the window.
    pub surfaces: usize,
    pub phase: Phase,
    pub index: usize,
    pub damage: Vec<Damage>,
}

/// The state of a [`Redraw`], with its collections as sequences.
#[verifier::ext_equal]
pub struct RedrawView {
    pub force: bool,
    pub dimensions: (u32, u32),
    pub modules: Seq<Module>,
    pub surfaces: usize,
    pub phase: Phase,
    pub index: int,
    pub damage: Seq<Damage>,
}

impl View for Redraw {
    type V = RedrawView;

    open spec fn view(&self) -> RedrawView {
        RedrawView {
            force: self.force,
            dimensions: self.dimensions,
            modules: self.modules@,
            surfaces: self.surfaces,
            phase: self.phase,
            index: self.index as int,
            damage: self.damage@,
        }
    }
}

/// How the surface at `surface` is made to show the buffer.
pub open spec fn surface_ops(surface: usize, damage: Seq<Damage>) -> Seq<PresentOp> {
    seq![PresentOp::Attach { surface, x: 0, y: 0 }] + damage.map_values(
        |d: Damage| PresentOp::Damage { surface, damage: d },
    ) + seq![PresentOp::Commit { surface }]
}

/// How the first `surfaces` surfaces are made to show the buffer.
pub open spec fn all_surface_ops(surfaces: int, damage: Seq<Damage>) -> Seq<PresentOp>
    decreases surfaces,
{
    if surfaces <= 0 {
        Seq::empty()
    } else {
        all_surface_ops(surfaces - 1, damage) + surface_ops((surfaces - 1) as usize, damage)
    }
}

/// The buffer of a window of the size `size`: all of its pixels, from the
/// start of the pool on, row after row without a gap.
pub open spec fn buffer_op(size: (u32, u32)) -> PresentOp {
    PresentOp::CreateBuffer {
        offset: 0,
        width: size.0 as i32,
        height: size.1 as i32,
        stride: (PIXEL_BYTES * size.0) as i32,
        format: Format::Argb8888,
    }
}

impl RedrawView {
    /// What is known of a redraw at any time.
    pub open spec fn wf(self) -> bool {
        &&& 0 <= self.index <= self.modules.len()
        &&& self.phase is Update || self.phase is Draw ==> self.index < self.modules.len()
        &&& !(self.phase is Pool) && !(self.phase is Done) ==> drawable(self.dimensions)
    }

    /// Whether `event` answers what the redraw waits for. In a free pool
    /// there must be room for the window.
    pub open spec fn expects<E>(self, event: DrawEventView<E>) -> bool {
        match event {
            DrawEventView::Pool { free } => self.phase is Pool && (free ==> drawable(
                self.dimensions,
            )),
            DrawEventView::Resized => self.phase is Resize,
            DrawEventView::Updated { .. } => self.phase is Update,
            DrawEventView::Drawn { .. } => self.phase is Draw,
            DrawEventView::Failed { .. } => self.phase is Update || self.phase is Draw,
            DrawEventView::Flushed => self.phase is Flush,
        }
    }

    /// Where the panel at hand stands in the window, if it has room there.
    pub open spec fn area(self) -> Option<Bounds> {
        part_of(content(self.dimensions), self.modules[self.index].bounds)
    }

    /// The state in which the panel at `index` is asked or, behind the last
    /// panel, the bytes are written out.
    pub open spec fn visiting(self, index: int) -> RedrawView {
        RedrawView {
            phase: if index < self.modules.len() {
                Phase::Update
            } else {
                Phase::Flush
            },
            index,
            ..self
        }
    }

    /// What is to be done in the state that `visiting` gives.
    pub open spec fn visit<E>(self, index: int) -> DrawActionView<E> {
        if index < self.modules.len() {
            DrawActionView::Update { module: index as usize, force: self.force }
        } else {
            DrawActionView::Flush
        }
    }

    /// The state after `event`.
    pub open spec fn after<E>(self, event: DrawEventView<E>) -> RedrawView {
        match event {
            DrawEventView::Pool { free } => RedrawView {
                phase: if free {
                    Phase::Resize
                } else {
                    Phase::Done
                },
                ..self
            },
            DrawEventView::Resized => self.visiting(0),
            DrawEventView::Updated { changed } => if !changed {
                self.visiting(self.index + 1)
            } else if self.area() is Some {
                RedrawView { phase: Phase::Draw, ..self }
            } else {
                RedrawView { phase: Phase::Done, ..self }
            },
            DrawEventView::Drawn { damage } => RedrawView {
                damage: self.damage + damage,
                ..self
            }.visiting(self.index + 1),
            DrawEventView::Failed { .. } => RedrawView { phase: Phase::Done, ..self },
            DrawEventView::Flushed => RedrawView { phase: Phase::Done, ..self },
        }
    }

    /// What is to be done after `event`.
    pub open spec fn action<E>(self, event: DrawEventView<E>) -> DrawActionView<E> {
        match event {
            DrawEventView::Pool { free } => if free {
                DrawActionView::Resize { bytes: byte_count(self.dimensions) as usize }
            } else {
                DrawActionView::Finish
            },
            DrawEventView::Resized => self.visit(0),
            DrawEventView::Updated { changed } => if !changed {
                self.visit(self.index + 1)
            } else {
                match self.area() {
                    Some(area) => DrawActionView::Draw { module: self.index as usize, area },
                    None => DrawActionView::OutOfBounds { module: self.index as usize },
                }
            },
            DrawEventView::Drawn { .. } => self.visit(self.index + 1),
            DrawEventView::Failed { error } => DrawActionView::Fail { error },
            DrawEventView::Flushed => if self.damage.len() == 0 {
                DrawActionView::Finish
            } else {
                DrawActionView::Present {
                    ops: seq![buffer_op(self.dimensions)] + all_surface_ops(
                        self.surfaces as int,
                        self.damage,
                    ),
                }
            },
        }
    }
}

/// How the surfaces, `surfaces` of them, are made to show a new buffer.
fn present(size: (u32, u32), surfaces: usize, damage: &Vec<Damage>) -> (ops: Vec<PresentOp>)
    requires
        drawable(size),
    ensures
        ops@ == seq![buffer_op(size)] + all_surface_ops(surfaces as int, damage@),
{
    proof {
        lemma_drawable_is_signed(size);
    }
    let mut ops: Vec<PresentOp> = Vec::new();
    ops.push(
        PresentOp::CreateBuffer {
            offset: 0,
            width: size.0 as i32,
            height: size.1 as i32,
            stride: (PIXEL_BYTES * size.0) as i32,
            format: Format::Argb8888,
        },
    );
    let mut surface: usize = 0;
    while surface < surfaces
        invariant
            surface <= surfaces,
            ops@ == seq![buffer_op(size)] + all_surface_ops(surface as int, damage@),
        decreases surfaces - surface,
    {
        let ghost before = ops@;
        let ghost steps = damage@.map_values(
            |d: Damage| PresentOp::Damage { surface, damage: d },
        );
        ops.push(PresentOp::Attach { surface, x: 0, y: 0 });
        let mut i: usize = 0;
        while i < damage.len()
            invariant
                i <= damage@.len(),
                steps == damage@.map_values(|d: Damage| PresentOp::Damage { surface, damage: d }),
                ops@ == before + seq![PresentOp::Attach { surface, x: 0, y: 0 }] + steps.take(
                    i as int,
                ),
            decreases damage@.len() - i,
        {
            ops.push(PresentOp::Damage { surface, damage: damage[i] });
            i += 1;
        }
        ops.push(PresentOp::Commit { surface });
        assert(ops@ == before + surface_ops(surface, damage@));
        surface += 1;
    }
    ops
}

impl Redraw {
    /// Goes on to the panel at `index`, or behind the last one to the end.
    fn visit<E>(&mut self, index: usize) -> (action: DrawAction<E>)
        ensures
            final(self)@ == old(self)@.visiting(index as int),
            action@ == old(self)@.visit::<E>(index as int),
    {
        self.index = index;
        if index < self.modules.len() {
            self.phase = Phase::Update;
            DrawAction::Update { module: index, force: self.force }
        } else {
            self.phase = Phase::Flush;
            DrawAction::Flush
        }
    }

    /// Takes in how the last action came out and gives back the next one.
    pub fn step<E>(&mut self, event: DrawEvent<E>) -> (action: DrawAction<E>)
        requires
            old(self)@.wf(),
            old(self)@.expects(event@),
        ensures
            final(self)@ == old(self)@.after(event@),
            final(self)@.wf(),
            action@ == old(self)@.action(event@),
    {
        match event {
            DrawEvent::Pool { free } => {
                if free {
                    self.phase = Phase::Resize;
                    DrawAction::Resize { bytes: pool_bytes(self.dimensions) }
                } else {
                    self.phase = Phase::Done;
                    DrawAction::Finish
                }
            },
            DrawEvent::Resized => self.visit(0),
            DrawEvent::Updated { changed } => {
                let module: usize = self.index;
                assert(module < self.modules.len());
                if !changed {
                    return self.visit(module + 1);
                }
                let bounds = self.modules[module].get_bounds();
                match subdimensions(content_area(self.dimensions), bounds) {
                    Some(area) => {
                        self.phase = Phase::Draw;
                        DrawAction::Draw { module, area }
                    },
                    None => {
                        self.phase = Phase::Done;
                        DrawAction::OutOfBounds { module }
                    },
                }
            },
            DrawEvent::Drawn { damage } => {
                let mut damage = damage;
                self.damage.append(&mut damage);
                assert(self.index < self.modules.len());
                let next: usize = self.index + 1;
                self.visit(next)
            },
            DrawEvent::Failed { error } => {
                self.phase = Phase::Done;
                DrawAction::Fail { error }
            },
            DrawEvent::Flushed => {
                self.phase = Phase::Done;
                if self.damage.len() == 0 {
                    DrawAction::Finish
                } else {
                    DrawAction::Present {
                        ops: present(self.dimensions, self.surfaces, &self.damage),
                    }
                }
            },
        }
    }
}

/// What comes of a visit to a panel.
pub enum Answer<E> {
    /// It has nothing new.
    Unchanged,
    /// It could not be asked.
    UpdateFailed { error: E },
    /// It has something new and, where it has room, draws it.
    Drew { damage: Seq<Damage> },
    /// It has something new but, where it has room, cannot draw it.
    DrawFailed { error: E },
}

/// Whether the panel at `i` has room in the window, with a margin of twenty
/// pixels on both sides of it.
pub open spec fn has_room(s: RedrawView, i: int) -> bool {
    let b = s.modules[i].bounds;
    20 + b.0 + b.2 + 20 <= s.dimensions.0 && 20 + b.1 + b.3 + 20 <= s.dimensions.1
}

/// Whether every panel has room in the window.
pub open spec fn all_have_room(s: RedrawView) -> bool {
    forall|i: int| 0 <= i < s.modules.len() ==> #[trigger] has_room(s, i)
}

/// Whether the visit to the panel at `i` goes wrong.
pub open spec fn goes_wrong<E>(s: RedrawView, answers: Seq<Answer<E>>, i: int) -> bool {
    match answers[i] {
        Answer::Unchanged => false,
        Answer::UpdateFailed { .. } => true,
        Answer::Drew { .. } => !has_room(s, i),
        Answer::DrawFailed { .. } => true,
    }
}

/// What a redraw ends with whose visit to the panel at `i` goes wrong.
pub open spec fn failure<E>(s: RedrawView, answers: Seq<Answer<E>>, i: int) -> DrawActionView<E> {
    match answers[i] {
        Answer::UpdateFailed { error } => DrawActionView::Fail { error },
        Answer::DrawFailed { error } if has_room(s, i) => DrawActionView::Fail { error },
        _ => DrawActionView::OutOfBounds { module: i as usize },
    }
}

/// The damage of the panels from `index` to before `end` that drew, in the
/// order of the panels.
pub open spec fn damage_between<E>(answers: Seq<Answer<E>>, index: int, end: int) -> Seq<Damage>
    decreases end - index,
{
    if index >= end {
        Seq::empty()
    } else {
        (match answers[index] {
            Answer::Drew { damage } => damage,
            _ => Seq::empty(),
        }) + damage_between(answers, index + 1, end)
    }
}

/// A redraw's state, and all that it asked for so far.
pub struct Run<E> {
    pub state: RedrawView,
    pub actions: Seq<DrawActionView<E>>,
}

impl<E> Run<E> {
    /// The run after `event`.
    pub open spec fn after(self, event: DrawEventView<E>) -> Run<E> {
        Run {
            state: self.state.after(event),
            actions: self.actions.push(self.state.action(event)),
        }
    }

    /// The run after the visit to the panel at hand.
    pub open spec fn answered(self, answer: Answer<E>) -> Run<E> {
        let asked = self.after(DrawEventView::Updated { changed: true });
        match answer {
            Answer::Unchanged => self.after(DrawEventView::Updated { changed: false }),
            Answer::UpdateFailed { error } => self.after(DrawEventView::Failed { error }),
            Answer::Drew { damage } => if asked.state.phase is Draw {
                asked.after(DrawEventView::Drawn { damage })
            } else {
                asked
            },
            Answer::DrawFailed { error } => if asked.state.phase is Draw {
                asked.after(DrawEventView::Failed { error })
            } else {
                asked
            },
        }
    }

    /// The run after the visits to all panels from the one at hand on, as far
    /// as they are made.
    pub open spec fn visited(self, answers: Seq<Answer<E>>) -> Run<E>
        decreases self.state.modules.len() - self.state.index,
    {
        if self.state.phase is Update && self.state.index < self.state.modules.len() {
            let next = self.answered(answers[self.state.index]);
            if next.state.phase is Update {
                next.visited(answers)
            } else {
                next
            }
        } else {
            self
        }
    }
}

/// Those of `actions` that ask a panel.
pub open spec fn updates_in<E>(actions: Seq<DrawActionView<E>>) -> Seq<DrawActionView<E>> {
    actions.filter(|a: DrawActionView<E>| a is Update)
}

/// Those of `actions` that let a panel draw.
pub open spec fn draws_in<E>(actions: Seq<DrawActionView<E>>) -> Seq<DrawActionView<E>> {
    actions.filter(|a: DrawActionView<E>| a is Draw)
}

/// The asking of the panels from `index` to before `end`, once each and in
/// their order.
pub open spec fn updates_between<E>(force: bool, index: int, end: int) -> Seq<DrawActionView<E>> {
    Seq::new(
        (if index < end {
            end - index
        } else {
            0
        }) as nat,
        |j: int| DrawActionView::Update { module: (index + j) as usize, force },
    )
}

/// The drawing of the panel at `i` at its place in the window, twenty pixels
/// right of and below the place that it was given.
pub open spec fn draw_of<E>(s: RedrawView, i: int) -> DrawActionView<E> {
    let b = s.modules[i].bounds;
    DrawActionView::Draw {
        module: i as usize,
        area: ((20 + b.0) as u32, (20 + b.1) as u32, b.2, b.3),
    }
}

/// The drawing of just those panels from `index` to before `end` that drew,
/// once each and in their order.
pub open spec fn draws_between<E>(
    s: RedrawView,
    answers: Seq<Answer<E>>,
    index: int,
    end: int,
) -> Seq<DrawActionView<E>>
    decreases end - index,
{
    if index >= end {
        Seq::empty()
    } else {
        (if answers[index] is Drew {
            seq![draw_of(s, index)]
        } else {
            Seq::empty()
        }) + draws_between(s, answers, index + 1, end)
    }
}

pub(crate) proof fn lemma_one_more_action<E>(
    actions: Seq<DrawActionView<E>>,
    action: DrawActionView<E>,
)
    ensures
        updates_in(actions.push(action)) == if action is Update {
            updates_in(actions).push(action)
        } else {
            updates_in(actions)
        },
        draws_in(actions.push(action)) == if action is Draw {
            draws_in(actions).push(action)
        } else {
            draws_in(actions)
        },
{
    reveal(Seq::filter);
    assert(actions.push(action).drop_last() == actions);
}

/// The actions of a visit that does not go wrong: the panel draws if it has
/// something new, then the next panel is asked, if there is one.
proof fn lemma_visit_actions<E>(run: Run<E>, answers: Seq<Answer<E>>)
    requires
        run.state.wf(),
        run.state.phase is Update,
        answers.len() == run.state.modules.len(),
        !goes_wrong(run.state, answers, run.state.index),
    ensures
        ({
            let s = run.state;
            let next = run.answered(answers[s.index]);
            &&& updates_in(next.actions) == updates_in(run.actions) + updates_between(
                s.force,
                s.index + 1,
                if s.index + 1 < s.modules.len() {
                    s.index + 2
                } else {
                    s.index + 1
                },
            )
            &&& draws_in(next.actions) == draws_in(run.actions) + (if answers[s.index] is Drew {
                seq![draw_of(s, s.index)]
            } else {
                Seq::empty()
            })
        }),
{
    let s = run.state;
    let next_visit = s.visit::<E>(s.index + 1);
    if answers[s.index] is Drew {
        lemma_one_more_action(run.actions, draw_of(s, s.index));
        lemma_one_more_action(run.actions.push(draw_of(s, s.index)), next_visit);
        assert(run.answered(answers[s.index]).actions == run.actions.push(
            draw_of(s, s.index),
        ).push(next_visit));
    } else {
        lemma_one_more_action(run.actions, next_visit);
        assert(run.answered(answers[s.index]).actions == run.actions.push(next_visit));
    }
}

/// Whether `action` neither shows anything nor concerns a panel behind the one
/// at `last`.
pub open spec fn harmless<E>(action: DrawActionView<E>, last: int) -> bool {
    match action {
        DrawActionView::Present { .. } => false,
        DrawActionView::Update { module, .. } => module <= last,
        DrawActionView::Draw { module, .. } => module <= last,
        _ => true,
    }
}

/// A redraw none of whose visits goes wrong asks all panels, one after the
/// other and once each, and lets just those draw that have something new, each
/// at its place. It ends up with the damage of those, in their order.
pub proof fn law_redraw_collects_damage<E>(run: Run<E>, answers: Seq<Answer<E>>)
    requires
        run.state.wf(),
        run.state.phase is Update || run.state.phase is Flush,
        run.state.phase is Flush ==> run.state.index == run.state.modules.len(),
        answers.len() == run.state.modules.len(),
        forall|i: int|
            run.state.index <= i < answers.len() ==> !(#[trigger] goes_wrong(
                run.state,
                answers,
                i,
            )),
    ensures
        run.visited(answers).state == (RedrawView {
            phase: Phase::Flush,
            index: answers.len() as int,
            damage: run.state.damage + damage_between(
                answers,
                run.state.index,
                answers.len() as int,
            ),
            ..run.state
        }),
        updates_in(run.visited(answers).actions) == updates_in(run.actions) + updates_between(
            run.state.force,
            run.state.index + 1,
            answers.len() as int,
        ),
        draws_in(run.visited(answers).actions) == draws_in(run.actions) + draws_between(
            run.state,
            answers,
            run.state.index,
            answers.len() as int,
        ),
    decreases answers.len() - run.state.index,
{
    let s = run.state;
    if s.phase is Update {
        assert(!goes_wrong(s, answers, s.index));
        let next = run.answered(answers[s.index]);
        assert(s.damage + damage_between(answers, s.index, answers.len() as int)
            == next.state.damage + damage_between(
            answers,
            s.index + 1,
            answers.len() as int,
        ));
        assert forall|i: int| s.index + 1 <= i < answers.len() implies !(#[trigger] goes_wrong(
            next.state,
            answers,
            i,
        )) by {
            assert(!goes_wrong(s, answers, i));
        }
        law_redraw_collects_damage(next, answers);
        lemma_visit_actions(run, answers);
        lemma_draws_same_place(s, next.state, answers, s.index + 1, answers.len() as int);
    } else {
        assert(s.damage + damage_between(answers, s.index, answers.len() as int) == s.damage);
    }
}

pub(crate) proof fn lemma_draws_same_place<E>(
    s: RedrawView,
    t: RedrawView,
    answers: Seq<Answer<E>>,
    index: int,
    end: int,
)
    requires
        s.dimensions == t.dimensions,
        s.modules == t.modules,
    ensures
        draws_between(s, answers, index, end) == draws_between(t, answers, index, end),
    decreases end - index,
{
    if index < end {
        lemma_draws_same_place(s, t, answers, index + 1, end);
    }
}

/// The first visit that goes wrong ends a redraw with what went wrong there.
/// The panels up to that one are asked, once each and in their order, those of
/// them draw that have something new and a place, no panel behind it is asked
/// or draws, and nothing is shown.
pub proof fn law_first_failure_ends_redraw<E>(run: Run<E>, answers: Seq<Answer<E>>, k: int)
    requires
        run.state.wf(),
        run.state.phase is Update,
        answers.len() == run.state.modules.len(),
        run.state.modules.len() <= usize::MAX,
        run.state.index <= k < answers.len(),
        goes_wrong(run.state, answers, k),
        forall|i: int|
            run.state.index <= i < k ==> !(#[trigger] goes_wrong(run.state, answers, i)),
        forall|i: int|
            0 <= i < run.actions.len() ==> harmless(#[trigger] run.actions[i], k),
    ensures
        run.visited(answers).state.phase is Done,
        run.visited(answers).actions.len() > 0,
        run.visited(answers).actions.last() == failure(run.state, answers, k),
        forall|i: int|
            0 <= i < run.visited(answers).actions.len() ==> harmless(
                #[trigger] run.visited(answers).actions[i],
                k,
            ),
        updates_in(run.visited(answers).actions) == updates_in(run.actions) + updates_between(
            run.state.force,
            run.state.index + 1,
            k + 1,
        ),
        draws_in(run.visited(answers).actions) == draws_in(run.actions) + draws_between(
            run.state,
            answers,
            run.state.index,
            k,
        ) + (if answers[k] is DrawFailed && has_room(run.state, k) {
            seq![draw_of(run.state, k)]
        } else {
            Seq::empty()
        }),
    decreases answers.len() - run.state.index,
{
    let s = run.state;
    let next = run.answered(answers[s.index]);
    assert forall|i: int| 0 <= i < next.actions.len() implies harmless(
        #[trigger] next.actions[i],
        k,
    ) by {
        if i < run.actions.len() {
            assert(next.actions[i] == run.actions[i]);
        } else if s.index < k {
            assert(!goes_wrong(s, answers, s.index));
        }
    }
    if s.index < k {
        assert(!goes_wrong(s, answers, s.index));
        assert forall|i: int| s.index + 1 <= i < k implies !(#[trigger] goes_wrong(
            next.state,
            answers,
            i,
        )) by {
            assert(!goes_wrong(s, answers, i));
        }
        law_first_failure_ends_redraw(next, answers, k);
        lemma_visit_actions(run, answers);
        lemma_draws_same_place(s, next.state, answers, s.index + 1, k);
    } else {
        lemma_one_more_action(run.actions, failure(s, answers, k));
        lemma_one_more_action(run.actions, draw_of(s, k));
        lemma_one_more_action(run.actions.push(draw_of(s, k)), failure(s, answers, k));
        assert(next.actions == if answers[k] is DrawFailed && has_room(s, k) {
            run.actions.push(draw_of(s, k)).push(failure(s, answers, k))
        } else {
            run.actions.push(failure(s, answers, k))
        });
    }
}

/// Something is shown only once every panel was visited and the bytes are
/// written out, and only if a panel drew something.
pub proof fn law_shown_only_at_the_end<E>(s: RedrawView, event: DrawEventView<E>)
    requires
        s.wf(),
        s.expects(event),
        s.action(event) is Present,
    ensures
        s.phase is Flush,
        s.damage.len() > 0,
{
}

/// A redraw that finished, showed something or gave up is over: it expects
/// nothing any more.
pub proof fn law_over_is_over<E>(s: RedrawView, event: DrawEventView<E>, next: DrawEventView<E>)
    requires
        s.wf(),
        s.expects(event),
        s.action(event) is Present || s.action(event) is Finish || s.action(event) is OutOfBounds
            || s.action(event) is Fail,
    ensures
        s.after(event).phase is Done,
        !s.after(event).expects(next),
{
}

/// Where every panel has room, no redraw gives up for want of it.
pub proof fn law_room_is_enough<E>(s: RedrawView, event: DrawEventView<E>)
    requires
        s.wf(),
        s.expects(event),
        all_have_room(s),
    ensures
        !(s.action(event) is OutOfBounds),
        all_have_room(s.after(event)),
{
    assert(s.phase is Update ==> has_room(s, s.index));
    assert forall|i: int| 0 <= i < s.modules.len() implies #[trigger] has_room(
        s.after(event),
        i,
    ) by {
        assert(has_room(s, i));
    }
}

/// Every surface is made to show the buffer exactly once: it is attached, is
/// told all of the damage and is committed, one surface after the other.
pub proof fn law_each_surface_once(surfaces: int, damage: Seq<Damage>, surface: usize)
    requires
        0 <= surface < surfaces <= usize::MAX,
    ensures
        ({
            let start = surface * (damage.len() + 2);
            let ops = all_surface_ops(surfaces, damage);
            &&& ops.len() == surfaces * (damage.len() + 2)
            &&& 0 <= start && start + damage.len() + 2 <= ops.len()
            &&& ops.subrange(start, start + damage.len() + 2) == surface_ops(surface, damage)
        }),
    decreases surfaces,
{
    let size = (damage.len() + 2) as int;
    let rest = all_surface_ops(surfaces - 1, damage);
    let last = surface_ops((surfaces - 1) as usize, damage);
    lemma_surface_ops_len(surfaces, damage);
    lemma_surface_ops_len(surfaces - 1, damage);
    let start = surface * size;
    assert(start + size <= surfaces * size && 0 <= start) by (nonlinear_arith)
        requires
            0 <= surface < surfaces,
            size >= 2,
            start == surface * size,
    ;
    let ops = all_surface_ops(surfaces, damage);
    if surface == surfaces - 1 {
        assert(ops.subrange(start, start + size) == last);
    } else {
        law_each_surface_once(surfaces - 1, damage, surface);
        assert(ops.subrange(start, start + size) == rest.subrange(start, start + size));
    }
}

proof fn lemma_surface_ops_len(surfaces: int, damage: Seq<Damage>)
    requires
        0 <= surfaces,
    ensures
        all_surface_ops(surfaces, damage).len() == surfaces * (damage.len() + 2),
    decreases surfaces,
{
    let size = (damage.len() + 2) as int;
    if surfaces > 0 {
        lemma_surface_ops_len(surfaces - 1, damage);
        assert((surfaces - 1) * size + size == surfaces * size) by (nonlinear_arith);
    } else {
        assert(surfaces * size == 0) by (nonlinear_arith)
            requires
                surfaces == 0,
        ;
    }
}

/// The view of a redraw, of an event and of an action loses nothing.
pub proof fn law_views_keep_the_redraw<E>(
    redraw: Redraw,
    event: DrawEvent<E>,
    action: DrawAction<E>,
)
    ensures
        redraw@.force == redraw.force,
        redraw@.dimensions == redraw.dimensions,
        redraw@.modules == redraw.modules@,
        redraw@.surfaces == redraw.surfaces,
        redraw@.phase == redraw.phase,
        redraw@.index == redraw.index,
        redraw@.damage == redraw.damage@,
        match event {
            DrawEvent::Pool { free } => event@ == (DrawEventView::<E>::Pool { free }),
            DrawEvent::Resized => event@ == DrawEventView::<E>::Resized,
            DrawEvent::Updated { changed } => event@ == (DrawEventView::<E>::Updated { changed }),
            DrawEvent::Drawn { damage } => event@ == (DrawEventView::<E>::Drawn {
                damage: damage@,
            }),
            DrawEvent::Failed { error } => event@ == (DrawEventView::Failed { error }),
            DrawEvent::Flushed => event@ == DrawEventView::<E>::Flushed,
        },
        match action {
            DrawAction::Resize { bytes } => action@ == (DrawActionView::<E>::Resize { bytes }),
            DrawAction::Update { module, force } => action@ == (DrawActionView::<E>::Update {
                module,
                force,
            }),
            DrawAction::Draw { module, area } => action@ == (DrawActionView::<E>::Draw {
                module,
                area,
            }),
            DrawAction::Flush => action@ == DrawActionView::<E>::Flush,
            DrawAction::Present { ops } => action@ == (DrawActionView::<E>::Present { ops: ops@ }),
            DrawAction::Finish => action@ == DrawActionView::<E>::Finish,
            DrawAction::OutOfBounds { module } => action@ == (DrawActionView::<E>::OutOfBounds {
                module,
            }),
            DrawAction::Fail { error } => action@ == (DrawActionView::Fail { error }),
        },
{
}

/// A redraw takes the answer to what it asked last, whatever that answer is,
/// and no other; once it is over, it takes none. A memory pool that is free
/// has to be of use: with a margin of twenty pixels in the window, and bytes
/// that can be counted in a `u32`.
pub proof fn law_each_phase_takes_its_answer<E>(s: RedrawView, event: DrawEventView<E>)
    ensures
        s.expects(event) <==> match event {
            DrawEventView::Pool { free } => s.phase is Pool && (free ==> s.dimensions.0 >= 40
                && s.dimensions.1 >= 40 && 4 * s.dimensions.0 * s.dimensions.1 <= u32::MAX),
            DrawEventView::Resized => s.phase is Resize,
            DrawEventView::Updated { .. } => s.phase is Update,
            DrawEventView::Drawn { .. } => s.phase is Draw,
            DrawEventView::Failed { .. } => s.phase is Update || s.phase is Draw,
            DrawEventView::Flushed => s.phase is Flush,
        },
{
    law_window_has_margins(s.dimensions);
}

/// Whatever comes, a redraw keeps to what it began with: whether it is forced,
/// the window, the panels and the surfaces. Only drawing adds to the damage, and
/// it adds behind what is there just what was drawn. Only the panels' turns
/// change which panel is at hand.
pub proof fn law_redraw_keeps_to_its_window<E>(s: RedrawView, event: DrawEventView<E>)
    ensures
        s.after(event).force == s.force,
        s.after(event).dimensions == s.dimensions,
        s.after(event).modules == s.modules,
        s.after(event).surfaces == s.surfaces,
        match event {
            DrawEventView::Drawn { damage } => {
                let all = s.after(event).damage;
                &&& all.len() == s.damage.len() + damage.len()
                &&& forall|k: int| 0 <= k < s.damage.len() ==> #[trigger] all[k] == s.damage[k]
                &&& forall|k: int|
                    0 <= k < damage.len() ==> all[s.damage.len() + k] == #[trigger] damage[k]
            },
            _ => s.after(event).damage == s.damage,
        },
        event is Pool || event is Failed || event is Flushed ==> s.after(event).index == s.index,
{
}

/// A redraw without a free memory pool is over at once. With one it asks for
/// four bytes for each pixel of the window.
pub proof fn law_redraw_needs_a_pool<E>(s: RedrawView, free: bool)
    requires
        s.expects(DrawEventView::<E>::Pool { free }),
    ensures
        !free ==> s.action(DrawEventView::<E>::Pool { free }) is Finish,
        !free ==> s.after(DrawEventView::<E>::Pool { free }).phase is Done,
        free ==> {
            &&& s.action(DrawEventView::<E>::Pool { free }) matches DrawActionView::Resize { bytes }
            &&& bytes == 4 * s.dimensions.0 * s.dimensions.1
        },
        free ==> s.after(DrawEventView::<E>::Pool { free }).phase is Resize,
{
    if free {
        let w = s.dimensions.0 as int;
        let h = s.dimensions.1 as int;
        assert((4 * w) * h >= 0) by (nonlinear_arith)
            requires
                w >= 0,
                h >= 0,
        ;
    }
}

/// A redraw begins with the first panel, and goes on to the next one from a
/// panel that has nothing new, or that drew. Behind the last one it writes the
/// bytes out.
pub proof fn law_panels_take_turns<E>(s: RedrawView, event: DrawEventView<E>)
    requires
        s.wf(),
        s.expects(event),
        s.modules.len() <= usize::MAX,
        event is Resized || event is Drawn || event == (DrawEventView::<E>::Updated {
            changed: false,
        }),
    ensures
        ({
            let turn = if event is Resized {
                0
            } else {
                s.index + 1
            };
            &&& s.after(event).index == turn
            &&& turn < s.modules.len() ==> {
                &&& s.action(event) matches DrawActionView::Update { module, force }
                &&& module == turn
                &&& force == s.force
                &&& s.after(event).phase is Update
            }
            &&& turn >= s.modules.len() ==> s.action(event) is Flush && s.after(
                event,
            ).phase is Flush
        }),
{
}

/// A panel that has something new draws exactly if it ends, with the margin of
/// twenty pixels on both sides of it, inside the window. It draws in an area of
/// its own size, that begins twenty pixels right of and below the place that it
/// was given. Else the redraw gives up.
pub proof fn law_changed_panel_draws_at_its_place<E>(s: RedrawView)
    requires
        s.wf(),
        s.phase is Update,
        s.modules.len() <= usize::MAX,
    ensures
        ({
            let changed = DrawEventView::<E>::Updated { changed: true };
            let b = s.modules[s.index].bounds;
            &&& s.after(changed).index == s.index
            &&& if 20 + b.0 + b.2 + 20 <= s.dimensions.0 && 20 + b.1 + b.3 + 20 <= s.dimensions.1 {
                &&& s.after(changed).phase is Draw
                &&& s.action(changed) matches DrawActionView::Draw { module, area }
                &&& module == s.index
                &&& area.0 == 20 + b.0
                &&& area.1 == 20 + b.1
                &&& area.2 == b.2
                &&& area.3 == b.3
            } else {
                &&& s.after(changed).phase is Done
                &&& s.action(changed) matches DrawActionView::OutOfBounds { module }
                &&& module == s.index
            }
        }),
{
}

/// A panel that fails ends the redraw with what it failed with.
pub proof fn law_failing_panel_ends_redraw<E>(s: RedrawView, error: E)
    ensures
        s.action(DrawEventView::Failed { error }) == (DrawActionView::Fail { error }),
        s.after(DrawEventView::Failed { error }).phase is Done,
{
}

/// A redraw in which nothing was drawn shows nothing. One in which something
/// was drawn shows all of the window: one buffer, from the start of the pool on,
/// with a stride of four bytes a pixel.
pub proof fn law_shown_is_the_whole_window<E>(s: RedrawView)
    requires
        s.wf(),
        s.phase is Flush,
    ensures
        s.after(DrawEventView::<E>::Flushed).phase is Done,
        s.damage.len() == 0 ==> s.action(DrawEventView::<E>::Flushed) is Finish,
        s.damage.len() > 0 ==> {
            &&& s.action(DrawEventView::<E>::Flushed) matches DrawActionView::Present { ops }
            &&& ops.len() == 1 + s.surfaces * (s.damage.len() + 2)
            &&& ops[0] matches PresentOp::CreateBuffer { offset, width, height, stride, format }
            &&& offset == 0
            &&& width == s.dimensions.0
            &&& height == s.dimensions.1
            &&& stride == 4 * s.dimensions.0
            &&& format == Format::Argb8888
        },
{
    lemma_drawable_is_signed(s.dimensions);
    lemma_surface_ops_len(s.surfaces as int, s.damage);
}

/// Each surface in turn is made to show the buffer, right behind what the ones
/// before it need: the buffer is attached without moving it, then every
/// rectangle that was drawn is told, in the order in which they were drawn and
/// each as it was drawn, then the surface is committed.
pub proof fn law_every_surface_shows_every_rectangle<E>(s: RedrawView, surface: usize)
    requires
        s.wf(),
        s.phase is Flush,
        s.damage.len() > 0,
        surface < s.surfaces,
    ensures
        ({
            let start = 1 + surface * (s.damage.len() + 2);
            &&& s.action(DrawEventView::<E>::Flushed) matches DrawActionView::Present { ops }
            &&& 1 <= start && start + s.damage.len() + 2 <= ops.len()
            &&& ops[start] == (PresentOp::Attach { surface, x: 0, y: 0 })
            &&& forall|k: int|
                0 <= k < s.damage.len() ==> ops[start + 1 + k] == (PresentOp::Damage {
                    surface,
                    damage: #[trigger] s.damage[k],
                })
            &&& ops[start + s.damage.len() + 1] == (PresentOp::Commit { surface })
        }),
{
    let n = s.damage.len() as int;
    let rest = all_surface_ops(s.surfaces as int, s.damage);
    let ops = seq![buffer_op(s.dimensions)] + rest;
    let at = surface * (s.damage.len() + 2);
    let part = rest.subrange(at, at + n + 2);
    law_each_surface_once(s.surfaces as int, s.damage, surface);
    assert(part == surface_ops(surface, s.damage));
    assert(part[0] == rest[at]);
    assert(part[n + 1] == rest[at + n + 1]);
    assert forall|k: int| 0 <= k < n implies ops[1 + at + 1 + k] == (PresentOp::Damage {
        surface,
        damage: #[trigger] s.damage[k],
    }) by {
        assert(part[1 + k] == rest[at + 1 + k]);
    }
}

/// What one panel drew stands, as it was drawn, behind all that the panels
/// before it drew.
pub proof fn law_damage_of_each_panel<E>(answers: Seq<Answer<E>>, index: int, i: int, end: int)
    requires
        0 <= index <= i < end <= answers.len(),
    ensures
        ({
            let all = damage_between(answers, index, end);
            let at = damage_between(answers, index, i).len();
            &&& answers[i] matches Answer::Drew { damage } ==> {
                &&& at + damage.len() <= all.len()
                &&& forall|k: int| 0 <= k < damage.len() ==> all[at + k] == #[trigger] damage[k]
            }
        }),
    decreases i - index,
{
    if index < i {
        law_damage_of_each_panel(answers, index + 1, i, end);
        let rest = damage_between(answers, index + 1, end);
        let first = match answers[index] {
            Answer::Drew { damage } => damage,
            _ => Seq::empty(),
        };
        assert(damage_between(answers, index, end) == first + rest);
        assert(damage_between(answers, index, i) == first + damage_between(
            answers,
            index + 1,
            i,
        ));
        if let Answer::Drew { damage } = answers[i] {
            let at = damage_between(answers, index + 1, i).len();
            assert forall|k: int| 0 <= k < damage.len() implies (first + rest)[first.len() + at + k]
                == #[trigger] damage[k] by {
                assert(rest[at + k] == damage[k]);
            }
        }
    }
}

} // verus!
