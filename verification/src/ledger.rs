//! What becomes of the compositor's objects when the operations that
//! [`outputs`](crate::outputs) asks for are performed.

use vstd::prelude::*;
use crate::outputs::{
    creation_of, creations, first_named, has_output, is_first_named, output_ids,
    shell_destructions, surface_destructions, without, GlobalEvent, InnerView, Output, OutputOp,
    RELEASE_SINCE,
};

verus! {

/// A surface of which a handle is held.
pub struct Held {
    pub alive: bool,
    /// Whether it has a layer surface that is alive.
    pub layered: bool,
    /// The name of the monitor that its layer surface is on.
    pub output: u32,
    /// Whether its layer surface takes the keyboard.
    pub keyboard: bool,
    /// The size of its layer surface, once it was given one.
    pub size: Option<(u32, u32)>,
    pub commits: nat,
}

/// The handles that the performer of the operations holds, and whether all of
/// the operations so far were in order.
#[verifier::ext_equal]
pub struct Ledger {
    /// The names of the monitors.
    pub outputs: Seq<u32>,
    pub surfaces: Seq<Held>,
    pub sound: bool,
}

impl Held {
    /// A surface that was just created.
    pub open spec fn fresh() -> Held {
        Held { alive: true, layered: false, output: 0, keyboard: false, size: None, commits: 0 }
    }

    /// A surface that was made for the monitor `output` with the size `size`:
    /// it and its layer surface are alive, it takes the keyboard, and it was
    /// committed once, when all of that was settled.
    pub open spec fn made(output: u32, size: (u32, u32)) -> Held {
        Held { alive: true, layered: true, output, keyboard: true, size: Some(size), commits: 1 }
    }
}

impl Ledger {
    /// No handles.
    pub open spec fn initial() -> Ledger {
        Ledger { outputs: Seq::empty(), surfaces: Seq::empty(), sound: true }
    }

    /// Whether a handle of a living surface is at `surface`.
    pub open spec fn alive(self, surface: usize) -> bool {
        surface < self.surfaces.len() && self.surfaces[surface as int].alive
    }

    /// Whether a handle of a living layer surface is at `surface`.
    pub open spec fn layered(self, surface: usize) -> bool {
        self.alive(surface) && self.surfaces[surface as int].layered
    }

    /// Whether `op` is in order. Only what is alive can be used or destroyed,
    /// a surface goes after its layer surface, and nothing that is alive is
    /// forgotten. A surface is committed once its layer surface takes the
    /// keyboard and has a size.
    pub open spec fn allows(self, op: OutputOp) -> bool {
        match op {
            OutputOp::Bind { .. } => true,
            OutputOp::Release { output } => output < self.outputs.len(),
            OutputOp::ForgetOutputs { id } => self.outputs.contains(id),
            OutputOp::DestroyShellSurface { surface } => self.layered(surface),
            OutputOp::DestroySurface { surface } => self.alive(surface) && !self.layered(surface),
            OutputOp::ForgetSurfaces => forall|i: int|
                0 <= i < self.surfaces.len() ==> !(#[trigger] self.surfaces[i]).alive,
            OutputOp::CreateSurface { surface } => surface == self.surfaces.len(),
            OutputOp::GetLayerSurface { surface, output, .. } => self.alive(surface)
                && !self.layered(surface) && output < self.outputs.len(),
            OutputOp::SetKeyboardInteractivity { surface, .. } => self.layered(surface),
            OutputOp::SetSize { surface, .. } => self.layered(surface),
            OutputOp::Commit { surface } => self.layered(surface)
                && self.surfaces[surface as int].keyboard
                && self.surfaces[surface as int].size is Some,
            OutputOp::AckConfigure { .. } => true,
            OutputOp::RequestDraw { .. } => true,
        }
    }

    /// The ledger with `held` at `surface`.
    pub open spec fn with(self, surface: usize, held: Held) -> Ledger {
        Ledger { surfaces: self.surfaces.update(surface as int, held), ..self }
    }

    /// The handles after `op`.
    pub open spec fn effect(self, op: OutputOp) -> Ledger {
        match op {
            OutputOp::Bind { id, .. } => Ledger { outputs: self.outputs.push(id), ..self },
            OutputOp::Release { .. } => self,
            OutputOp::ForgetOutputs { id } => Ledger {
                outputs: self.outputs.filter(|name: u32| name != id),
                ..self
            },
            OutputOp::DestroyShellSurface { surface } => self.with(
                surface,
                Held { layered: false, ..self.surfaces[surface as int] },
            ),
            OutputOp::DestroySurface { surface } => self.with(
                surface,
                Held { alive: false, ..self.surfaces[surface as int] },
            ),
            OutputOp::ForgetSurfaces => Ledger { surfaces: Seq::empty(), ..self },
            OutputOp::CreateSurface { .. } => Ledger {
                surfaces: self.surfaces.push(Held::fresh()),
                ..self
            },
            OutputOp::GetLayerSurface { surface, output, .. } => self.with(
                surface,
                Held {
                    layered: true,
                    output: self.outputs[output as int],
                    ..self.surfaces[surface as int]
                },
            ),
            OutputOp::SetKeyboardInteractivity { surface, interactivity } => self.with(
                surface,
                Held { keyboard: interactivity == 1, ..self.surfaces[surface as int] },
            ),
            OutputOp::SetSize { surface, size } => self.with(
                surface,
                Held { size: Some(size), ..self.surfaces[surface as int] },
            ),
            OutputOp::Commit { surface } => self.with(
                surface,
                Held {
                    commits: self.surfaces[surface as int].commits + 1,
                    ..self.surfaces[surface as int]
                },
            ),
            OutputOp::AckConfigure { .. } => self,
            OutputOp::RequestDraw { .. } => self,
        }
    }

    /// The ledger after `op`.
    pub open spec fn after(self, op: OutputOp) -> Ledger {
        Ledger { sound: self.sound && self.allows(op), ..self.effect(op) }
    }

    /// The ledger after all of `ops`.
    pub open spec fn after_all(self, ops: Seq<OutputOp>) -> Ledger
        decreases ops.len(),
    {
        if ops.len() == 0 {
            self
        } else {
            self.after_all(ops.drop_last()).after(ops.last())
        }
    }

    /// Whether all was in order so far, and the handles are those of `s`: one
    /// for each monitor, and one for each surface, which is alive, with a
    /// living layer surface on its monitor that takes the keyboard and has a
    /// size, and which was committed once.
    pub open spec fn matches_state(self, s: InnerView) -> bool {
        &&& self.sound
        &&& self.outputs == output_ids(s.outputs)
        &&& self.surfaces.len() == s.surfaces.len()
        &&& forall|i: int|
            0 <= i < self.surfaces.len() ==> {
                let held = #[trigger] self.surfaces[i];
                held.size is Some && held == Held::made(s.surfaces[i], held.size->0)
            }
    }
}

/// A call by which the monitors or their surfaces change.
pub enum Call {
    GlobalEvent { event: GlobalEvent },
    OutputsChanged,
    Configure { generation: u64, serial: u32 },
    SetCompositor { compositor: bool },
    SetShell { shell: bool },
    SetDimensions { dimensions: (u32, u32) },
}

/// The state of `s` after `call`.
pub open spec fn called(s: InnerView, call: Call) -> InnerView {
    match call {
        Call::GlobalEvent { event } => s.after_global(event),
        Call::OutputsChanged => s.rebuilt(),
        Call::Configure { generation, .. } => s.configured(generation),
        Call::SetCompositor { compositor } => InnerView { compositor, ..s },
        Call::SetShell { shell } => InnerView { shell, ..s },
        Call::SetDimensions { dimensions } => InnerView { dimensions, ..s },
    }
}

/// What `call` asks for in the state `s`.
pub open spec fn call_ops(s: InnerView, call: Call) -> Seq<OutputOp> {
    match call {
        Call::GlobalEvent { event } => s.global_ops(event),
        Call::OutputsChanged => s.rebuild_ops(),
        Call::Configure { serial, .. } => seq![
            OutputOp::AckConfigure { serial },
            OutputOp::RequestDraw { update: false },
        ],
        _ => Seq::empty(),
    }
}

/// The state after `calls`, made one after the other from the start.
pub open spec fn state_after(calls: Seq<Call>) -> InnerView
    decreases calls.len(),
{
    if calls.len() == 0 {
        InnerView::initial()
    } else {
        called(state_after(calls.drop_last()), calls.last())
    }
}

/// The ledger after all that `calls` asked for.
pub open spec fn ledger_after(calls: Seq<Call>) -> Ledger
    decreases calls.len(),
{
    if calls.len() == 0 {
        Ledger::initial()
    } else {
        ledger_after(calls.drop_last()).after_all(
            call_ops(state_after(calls.drop_last()), calls.last()),
        )
    }
}

proof fn lemma_after_sum(l: Ledger, a: Seq<OutputOp>, b: Seq<OutputOp>)
    ensures
        l.after_all(a + b) == l.after_all(a).after_all(b),
    decreases b.len(),
{
    if b.len() == 0 {
        assert(a + b == a);
    } else {
        lemma_after_sum(l, a, b.drop_last());
        assert((a + b).drop_last() == a + b.drop_last());
    }
}

proof fn lemma_after_one(l: Ledger, op: OutputOp)
    ensures
        l.after_all(seq![op]) == l.after(op),
{
    assert(seq![op].drop_last() == Seq::<OutputOp>::empty());
    assert(l.after_all(seq![op].drop_last()) == l);
}

proof fn lemma_shells_destroyed(l: Ledger, count: nat)
    requires
        l.sound,
        count <= l.surfaces.len() <= usize::MAX,
        forall|i: int|
            0 <= i < l.surfaces.len() ==> (#[trigger] l.surfaces[i]).alive
                && l.surfaces[i].layered,
    ensures
        l.after_all(shell_destructions(count)) == (Ledger {
            surfaces: Seq::new(
                l.surfaces.len(),
                |i: int|
                    if i < count {
                        Held { layered: false, ..l.surfaces[i] }
                    } else {
                        l.surfaces[i]
                    },
            ),
            ..l
        }),
    decreases count,
{
    if count > 0 {
        let rest = (count - 1) as nat;
        lemma_shells_destroyed(l, rest);
        assert(shell_destructions(count).drop_last() == shell_destructions(rest));
        assert(shell_destructions(count).last() == (OutputOp::DestroyShellSurface {
            surface: rest as usize,
        }));
        assert(l.surfaces[rest as int].alive);
    }
}

proof fn lemma_surfaces_destroyed(l: Ledger, count: nat)
    requires
        l.sound,
        count <= l.surfaces.len() <= usize::MAX,
        forall|i: int|
            0 <= i < l.surfaces.len() ==> (#[trigger] l.surfaces[i]).alive
                && !l.surfaces[i].layered,
    ensures
        l.after_all(surface_destructions(count)) == (Ledger {
            surfaces: Seq::new(
                l.surfaces.len(),
                |i: int|
                    if i < count {
                        Held { alive: false, ..l.surfaces[i] }
                    } else {
                        l.surfaces[i]
                    },
            ),
            ..l
        }),
    decreases count,
{
    if count > 0 {
        let rest = (count - 1) as nat;
        lemma_surfaces_destroyed(l, rest);
        assert(surface_destructions(count).drop_last() == surface_destructions(rest));
        assert(surface_destructions(count).last() == (OutputOp::DestroySurface {
            surface: rest as usize,
        }));
        assert(l.surfaces[rest as int].alive);
    }
}

proof fn lemma_surface_made(l: Ledger, index: usize, size: (u32, u32), generation: u64)
    requires
        l.sound,
        index == l.surfaces.len(),
        index < l.outputs.len(),
    ensures
        l.after_all(creation_of(index, size, generation)) == (Ledger {
            surfaces: l.surfaces.push(Held::made(l.outputs[index as int], size)),
            ..l
        }),
{
    let ops = creation_of(index, size, generation);
    let l1 = l.after(ops[0]);
    let l2 = l1.after(ops[1]);
    let l3 = l2.after(ops[2]);
    let l4 = l3.after(ops[3]);
    let l5 = l4.after(ops[4]);
    lemma_after_one(l, ops[0]);
    lemma_after_sum(l, seq![ops[0]], seq![ops[1]]);
    lemma_after_one(l1, ops[1]);
    lemma_after_sum(l, seq![ops[0]] + seq![ops[1]], seq![ops[2]]);
    lemma_after_one(l2, ops[2]);
    lemma_after_sum(l, seq![ops[0]] + seq![ops[1]] + seq![ops[2]], seq![ops[3]]);
    lemma_after_one(l3, ops[3]);
    lemma_after_sum(
        l,
        seq![ops[0]] + seq![ops[1]] + seq![ops[2]] + seq![ops[3]],
        seq![ops[4]],
    );
    lemma_after_one(l4, ops[4]);
    assert(ops == seq![ops[0]] + seq![ops[1]] + seq![ops[2]] + seq![ops[3]] + seq![ops[4]]);
    assert(l1.surfaces[index as int] == Held::fresh());
    assert(l5 == (Ledger {
        surfaces: l.surfaces.push(Held::made(l.outputs[index as int], size)),
        ..l
    }));
}

proof fn lemma_surfaces_made(l: Ledger, count: nat, size: (u32, u32), generation: u64)
    requires
        l.sound,
        l.surfaces.len() == 0,
        count <= l.outputs.len() <= usize::MAX,
    ensures
        l.after_all(creations(count as int, size, generation)) == (Ledger {
            surfaces: Seq::new(count, |i: int| Held::made(l.outputs[i], size)),
            ..l
        }),
    decreases count,
{
    if count > 0 {
        let rest = (count - 1) as nat;
        lemma_surfaces_made(l, rest, size, generation);
        lemma_after_sum(
            l,
            creations(rest as int, size, generation),
            creation_of(rest as usize, size, generation),
        );
        lemma_surface_made(
            l.after_all(creations(rest as int, size, generation)),
            rest as usize,
            size,
            generation,
        );
        assert(Seq::new(rest, |i: int| Held::made(l.outputs[i], size)).push(
            Held::made(l.outputs[rest as int], size),
        ) == Seq::new(count, |i: int| Held::made(l.outputs[i], size)));
    } else {
        assert(l.surfaces == Seq::new(0nat, |i: int| Held::made(l.outputs[i], size)));
    }
}

/// Making the surfaces anew is in order. It leaves one surface for each
/// monitor, and each has the size of the window. It takes any ledger whose
/// monitors and living surfaces are those of `s`.
pub proof fn law_rebuilding_is_sound(l: Ledger, s: InnerView)
    requires
        s.can_build(),
        s.outputs.len() <= usize::MAX,
        s.surfaces.len() <= usize::MAX,
        l.matches_state(s),
    ensures
        l.after_all(s.rebuild_ops()).matches_state(s.rebuilt()),
        l.after_all(s.rebuild_ops()).surfaces == s.outputs.map_values(
            |o: Output| Held::made(o.id, s.dimensions),
        ),
{
    let n = s.surfaces.len();
    let generation = (s.generation + 1) as u64;
    let shell_gone = shell_destructions(n);
    let gone = surface_destructions(n);
    let forget = seq![OutputOp::ForgetSurfaces];
    let made = creations(s.outputs.len() as int, s.dimensions, generation);
    let request = seq![OutputOp::RequestDraw { update: false }];

    lemma_shells_destroyed(l, n);
    let l1 = l.after_all(shell_gone);
    assert forall|i: int| 0 <= i < l1.surfaces.len() implies (#[trigger] l1.surfaces[i]).alive
        && !l1.surfaces[i].layered by {
        assert(l.surfaces[i].alive);
    }
    lemma_surfaces_destroyed(l1, n);
    lemma_after_sum(l, shell_gone, gone);
    let l2 = l1.after_all(gone);
    lemma_after_sum(l, shell_gone + gone, forget);
    lemma_after_one(l2, OutputOp::ForgetSurfaces);
    let l3 = l2.after(OutputOp::ForgetSurfaces);
    assert(l3 == (Ledger { surfaces: Seq::empty(), ..l }));
    lemma_surfaces_made(l3, s.outputs.len(), s.dimensions, generation);
    lemma_after_sum(l, shell_gone + gone + forget, made);
    let l4 = l3.after_all(made);
    lemma_after_sum(l, shell_gone + gone + forget + made, request);
    lemma_after_one(l4, OutputOp::RequestDraw { update: false });
    assert(l4.surfaces == s.outputs.map_values(|o: Output| Held::made(o.id, s.dimensions)));
}

proof fn lemma_first_named_exists(outputs: Seq<Output>, id: u32, i: int)
    requires
        0 <= i < outputs.len(),
        outputs[i].id == id,
    ensures
        is_first_named(outputs, id, first_named(outputs, id)),
    decreases i,
{
    if exists|j: int| 0 <= j < i && (#[trigger] outputs[j]).id == id {
        let j = choose|j: int| 0 <= j < i && (#[trigger] outputs[j]).id == id;
        lemma_first_named_exists(outputs, id, j);
    } else {
        assert(is_first_named(outputs, id, i));
    }
}

proof fn lemma_names_without(outputs: Seq<Output>, id: u32)
    ensures
        output_ids(without(outputs, id)) == output_ids(outputs).filter(|name: u32| name != id),
        without(outputs, id).len() <= outputs.len(),
    decreases outputs.len(),
{
    reveal(Seq::filter);
    if outputs.len() > 0 {
        let rest = outputs.drop_last();
        lemma_names_without(rest, id);
        assert(output_ids(outputs).drop_last() == output_ids(rest));
        assert(output_ids(outputs).last() == outputs.last().id);
        assert(output_ids(without(rest, id).push(outputs.last())) == output_ids(
            without(rest, id),
        ).push(outputs.last().id));
    } else {
        assert(output_ids(without(outputs, id)) == output_ids(outputs).filter(
            |name: u32| name != id,
        ));
    }
}

proof fn lemma_rebuild_matches(l: Ledger, s: InnerView)
    requires
        s.outputs.len() <= usize::MAX,
        s.surfaces.len() <= usize::MAX,
        l.matches_state(s),
    ensures
        l.after_all(s.rebuild_ops()).matches_state(s.rebuilt()),
{
    if s.can_build() {
        law_rebuilding_is_sound(l, s);
    }
}

proof fn lemma_removal_matches(l: Ledger, s: InnerView, id: u32)
    requires
        s.outputs.len() <= usize::MAX,
        s.surfaces.len() <= usize::MAX,
        l.matches_state(s),
    ensures
        l.after_all(s.removal_ops(id)).matches_state(s.removed(id)),
        s.removed(id).outputs.len() <= s.outputs.len(),
{
    if has_output(s.outputs, id) {
        let i = choose|i: int| 0 <= i < s.outputs.len() && (#[trigger] s.outputs[i]).id == id;
        lemma_first_named_exists(s.outputs, id, i);
        lemma_names_without(s.outputs, id);
        let first = first_named(s.outputs, id);
        let release = OutputOp::Release { output: first as usize };
        let forget = OutputOp::ForgetOutputs { id };
        let head = if s.outputs[first].version >= RELEASE_SINCE {
            seq![release]
        } else {
            Seq::empty()
        };
        lemma_after_one(l, release);
        assert(l.after_all(head) == l);
        lemma_after_sum(l, head, seq![forget]);
        lemma_after_one(l, forget);
        assert(l.outputs[first] == id);
        let rest = s.without_output(id);
        assert(l.after(forget).matches_state(rest));
        lemma_after_sum(l, head + seq![forget], rest.rebuild_ops());
        lemma_rebuild_matches(l.after(forget), rest);
    }
}

proof fn lemma_call_matches(l: Ledger, s: InnerView, call: Call)
    requires
        s.outputs.len() < usize::MAX,
        s.surfaces.len() <= usize::MAX,
        l.matches_state(s),
    ensures
        l.after_all(call_ops(s, call)).matches_state(called(s, call)),
        called(s, call).outputs.len() <= s.outputs.len() + 1,
        called(s, call).surfaces.len() <= s.surfaces.len() || called(s, call).surfaces.len()
            <= s.outputs.len() + 1,
{
    match call {
        Call::GlobalEvent { event } => match event {
            GlobalEvent::New { id, interface, version } => if interface@ == "wl_output"@ {
                let output = Output { id, version };
                let bind = OutputOp::Bind { id, version };
                let more = s.with_output(output);
                lemma_after_one(l, bind);
                assert(output_ids(more.outputs) == output_ids(s.outputs).push(id));
                assert(l.after(bind).matches_state(more));
                lemma_after_sum(l, seq![bind], more.rebuild_ops());
                lemma_rebuild_matches(l.after(bind), more);
            },
            GlobalEvent::Removed { id, interface } => if interface@ == "wl_output"@ {
                lemma_removal_matches(l, s, id);
            },
        },
        Call::OutputsChanged => {
            lemma_rebuild_matches(l, s);
        },
        Call::Configure { serial, .. } => {
            let ack = OutputOp::AckConfigure { serial };
            let request = OutputOp::RequestDraw { update: false };
            assert(call_ops(s, call) == seq![ack] + seq![request]);
            lemma_after_sum(l, seq![ack], seq![request]);
            lemma_after_one(l, ack);
            lemma_after_one(l.after(ack), request);
        },
        _ => {},
    }
}

/// Whatever calls are made from the start on, performing what they ask for is
/// in order at every step: no surface or layer surface is forgotten alive,
/// none is destroyed twice or used when it is gone. And the handles held in
/// the end are those of the state: the monitors, and for each surface a living
/// one on its monitor.
pub proof fn law_no_surface_leaks(calls: Seq<Call>)
    requires
        calls.len() <= usize::MAX,
    ensures
        ledger_after(calls).matches_state(state_after(calls)),
        state_after(calls).outputs.len() <= calls.len(),
        state_after(calls).surfaces.len() <= calls.len(),
    decreases calls.len(),
{
    if calls.len() > 0 {
        law_no_surface_leaks(calls.drop_last());
        lemma_call_matches(
            ledger_after(calls.drop_last()),
            state_after(calls.drop_last()),
            calls.last(),
        );
    } else {
        assert(output_ids(Seq::<Output>::empty()) == Seq::<u32>::empty());
    }
}

} // verus!
