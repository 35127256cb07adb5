use vstd::prelude::*;

verus! {

/// A monitor: the name under which the compositor announced it, and the
/// version of the interface that it was bound with.
#[derive(Clone, Copy, Debug, PartialEq, Eq, Structural)]
pub struct Output {
    pub id: u32,
    pub version: u32,
}

/// Where a layer surface stands among the others.
#[derive(Clone, Copy, Debug, PartialEq, Eq, Structural)]
pub enum Layer {
    Background,
    Bottom,
    Top,
    Overlay,
}

/// What is to be done with monitors and surfaces, in the order given. The
/// performer holds a list of monitor handles and a list of surface handles;
/// `output` and `surface` are places in these lists.
#[derive(Clone, Copy, Debug, PartialEq, Eq)]
pub enum OutputOp {
    /// Bind the announced monitor `id` with `version`, and put its handle
    /// behind the present ones.
    Bind { id: u32, version: u32 },
    /// Tell the compositor that a monitor is no longer used.
    Release { output: usize },
    /// Drop the handles of all monitors that are named `id`.
    ForgetOutputs { id: u32 },
    /// Destroy the layer surface of a surface.
    DestroyShellSurface { surface: usize },
    /// Destroy a surface.
    DestroySurface { surface: usize },
    /// Drop the handles of all surfaces.
    ForgetSurfaces,
    /// Create a surface, and put its handle behind the present ones, at
    /// `surface`.
    CreateSurface { surface: usize },
    /// Give a surface a layer surface on a monitor. Its configure events
    /// carry `generation`.
    GetLayerSurface {
        surface: usize,
        output: usize,
        layer: Layer,
        namespace: &'static str,
        generation: u64,
    },
    /// Say whether a layer surface takes the keyboard: 1 if it does.
    SetKeyboardInteractivity { surface: usize, interactivity: u32 },
    /// Give a layer surface its size.
    SetSize { surface: usize, size: (u32, u32) },
    /// Let a surface take effect.
    Commit { surface: usize },
    /// Acknowledge the configure event `serial`.
    AckConfigure { serial: u32 },
    /// Ask for a redraw: of what changed if `update`, else of everything.
    RequestDraw { update: bool },
}

/// What the registry announces.
#[derive(Debug)]
pub enum GlobalEvent {
    New { id: u32, interface: String, version: u32 },
    Removed { id: u32, interface: String },
}

/// The version of `wl_output` from which on a monitor can be released.
pub const RELEASE_SINCE: u32 = 3;

/// The monitors, the surfaces made for them, and how far those are
/// configured.
#[derive(Debug)]
pub struct AppInner {
    /// Whether the compositor global is at hand.
    pub compositor: bool,
    /// Whether the layer shell global is at hand.
    pub shell: bool,
    pub outputs: Vec<Output>,
    /// For each surface, the monitor that it was made for.
    pub surfaces: Vec<u32>,
    /// How often the surfaces were made anew.
    pub generation: u64,
    /// How many configure events the present surfaces have received.
    pub configured_surfaces: usize,
    pub dimensions: (u32, u32),
}

/// The state of an [`AppInner`], with its collections as sequences.
#[verifier::ext_equal]
pub struct InnerView {
    pub compositor: bool,
    pub shell: bool,
    pub outputs: Seq<Output>,
    pub surfaces: Seq<u32>,
    pub generation: u64,
    pub configured_surfaces: usize,
    pub dimensions: (u32, u32),
}

impl View for AppInner {
    type V = InnerView;

    open spec fn view(&self) -> InnerView {
        InnerView {
            compositor: self.compositor,
            shell: self.shell,
            outputs: self.outputs@,
            surfaces: self.surfaces@,
            generation: self.generation,
            configured_surfaces: self.configured_surfaces,
            dimensions: self.dimensions,
        }
    }
}

/// The names of `outputs`.
pub open spec fn output_ids(outputs: Seq<Output>) -> Seq<u32> {
    outputs.map_values(|o: Output| o.id)
}

/// The monitors of `outputs` that are not named `id`, in their order.
pub open spec fn without(outputs: Seq<Output>, id: u32) -> Seq<Output> {
    outputs.filter(|o: Output| o.id != id)
}

/// Whether `i` is the first of `outputs` that is named `id`.
pub open spec fn is_first_named(outputs: Seq<Output>, id: u32, i: int) -> bool {
    &&& 0 <= i < outputs.len()
    &&& outputs[i].id == id
    &&& forall|j: int| 0 <= j < i ==> (#[trigger] outputs[j]).id != id
}

/// Whether one of `outputs` is named `id`.
pub open spec fn has_output(outputs: Seq<Output>, id: u32) -> bool {
    exists|i: int| 0 <= i < outputs.len() && (#[trigger] outputs[i]).id == id
}

/// The first of `outputs` that is named `id`.
pub open spec fn first_named(outputs: Seq<Output>, id: u32) -> int
    recommends
        has_output(outputs, id),
{
    choose|i: int| is_first_named(outputs, id, i)
}

/// How the surface at `index` is made on the monitor at `index`: it is
/// created, gets a layer surface in the overlay layer that takes the keyboard
/// and has the size `size`, and is committed then.
pub open spec fn creation_of(index: usize, size: (u32, u32), generation: u64) -> Seq<OutputOp> {
    seq![
        OutputOp::CreateSurface { surface: index },
        OutputOp::GetLayerSurface {
            surface: index,
            output: index,
            layer: Layer::Overlay,
            namespace: "",
            generation,
        },
        OutputOp::SetKeyboardInteractivity { surface: index, interactivity: 1 },
        OutputOp::SetSize { surface: index, size },
        OutputOp::Commit { surface: index },
    ]
}

/// How a surface is made on each of the first `count` monitors.
pub open spec fn creations(count: int, size: (u32, u32), generation: u64) -> Seq<OutputOp>
    decreases count,
{
    if count <= 0 {
        Seq::empty()
    } else {
        creations(count - 1, size, generation) + creation_of(
            (count - 1) as usize,
            size,
            generation,
        )
    }
}

/// How the layer surfaces of `count` surfaces are destroyed.
pub open spec fn shell_destructions(count: nat) -> Seq<OutputOp> {
    Seq::new(count, |i: int| OutputOp::DestroyShellSurface { surface: i as usize })
}

/// How `count` surfaces are destroyed.
pub open spec fn surface_destructions(count: nat) -> Seq<OutputOp> {
    Seq::new(count, |i: int| OutputOp::DestroySurface { surface: i as usize })
}

impl InnerView {
    /// No globals, no monitors, no surfaces.
    pub open spec fn initial() -> InnerView {
        InnerView {
            compositor: false,
            shell: false,
            outputs: Seq::empty(),
            surfaces: Seq::empty(),
            generation: 0,
            configured_surfaces: 0,
            dimensions: (0, 0),
        }
    }

    /// Whether surfaces can be made at all.
    pub open spec fn can_build(self) -> bool {
        self.compositor && self.shell
    }

    /// Whether every surface is configured, so that there may be drawn.
    pub open spec fn ready(self) -> bool {
        self.surfaces.len() == self.configured_surfaces
    }

    /// Whether there is one surface for each monitor, in the same order.
    pub open spec fn in_sync(self) -> bool {
        self.surfaces == output_ids(self.outputs)
    }

    /// Whether the surfaces can be made anew once more.
    pub open spec fn generations_left(self) -> bool {
        self.can_build() ==> self.generation < u64::MAX
    }

    /// The state once the surfaces are made anew, where they can be.
    pub open spec fn rebuilt(self) -> InnerView {
        if self.can_build() {
            InnerView {
                surfaces: output_ids(self.outputs),
                generation: (self.generation + 1) as u64,
                configured_surfaces: 0,
                ..self
            }
        } else {
            self
        }
    }

    /// How the surfaces are made anew: the old ones go, layer surfaces first,
    /// each monitor gets a new one, and all of it is to be drawn.
    pub open spec fn rebuild_ops(self) -> Seq<OutputOp> {
        if self.can_build() {
            shell_destructions(self.surfaces.len()) + surface_destructions(self.surfaces.len())
                + seq![OutputOp::ForgetSurfaces] + creations(
                self.outputs.len() as int,
                self.dimensions,
                (self.generation + 1) as u64,
            ) + seq![OutputOp::RequestDraw { update: false }]
        } else {
            Seq::empty()
        }
    }

    /// The state with `output` behind the other monitors.
    pub open spec fn with_output(self, output: Output) -> InnerView {
        InnerView { outputs: self.outputs.push(output), ..self }
    }

    /// The state without the monitors named `id`.
    pub open spec fn without_output(self, id: u32) -> InnerView {
        InnerView { outputs: without(self.outputs, id), ..self }
    }

    /// The state after a new monitor.
    pub open spec fn added(self, output: Output) -> InnerView {
        self.with_output(output).rebuilt()
    }

    /// The state after the monitor `id` is gone.
    pub open spec fn removed(self, id: u32) -> InnerView {
        if has_output(self.outputs, id) {
            self.without_output(id).rebuilt()
        } else {
            self
        }
    }

    /// What a monitor's leaving calls for: its release where its version
    /// knows one, the loss of its handle, then new surfaces. A monitor that is
    /// not there calls for nothing.
    pub open spec fn removal_ops(self, id: u32) -> Seq<OutputOp> {
        if has_output(self.outputs, id) {
            let first = first_named(self.outputs, id);
            (if self.outputs[first].version >= RELEASE_SINCE {
                seq![OutputOp::Release { output: first as usize }]
            } else {
                Seq::empty()
            }) + seq![OutputOp::ForgetOutputs { id }] + self.without_output(id).rebuild_ops()
        } else {
            Seq::empty()
        }
    }

    /// The state after what the registry announced.
    pub open spec fn after_global(self, event: GlobalEvent) -> InnerView {
        match event {
            GlobalEvent::New { id, interface, version } => if interface@ == "wl_output"@ {
                self.added(Output { id, version })
            } else {
                self
            },
            GlobalEvent::Removed { id, interface } => if interface@ == "wl_output"@ {
                self.removed(id)
            } else {
                self
            },
        }
    }

    /// What the registry's announcement calls for.
    pub open spec fn global_ops(self, event: GlobalEvent) -> Seq<OutputOp> {
        match event {
            GlobalEvent::New { id, interface, version } => if interface@ == "wl_output"@ {
                seq![OutputOp::Bind { id, version }] + self.with_output(
                    Output { id, version },
                ).rebuild_ops()
            } else {
                Seq::empty()
            },
            GlobalEvent::Removed { id, interface } => if interface@ == "wl_output"@ {
                self.removal_ops(id)
            } else {
                Seq::empty()
            },
        }
    }

    /// The state after a configure event of a surface of `generation`.
    pub open spec fn configured(self, generation: u64) -> InnerView {
        if generation == self.generation {
            InnerView {
                configured_surfaces: (self.configured_surfaces + 1) as usize,
                ..self
            }
        } else {
            self
        }
    }
}

impl AppInner {
    /// No globals, no monitors, no surfaces.
    pub fn new() -> (r: AppInner)
        ensures
            r@ == InnerView::initial(),
    {
        AppInner {
            compositor: false,
            shell: false,
            outputs: Vec::new(),
            surfaces: Vec::new(),
            generation: 0,
            configured_surfaces: 0,
            dimensions: (0, 0),
        }
    }

    /// Makes the surfaces anew, one for each monitor, and asks for a full
    /// redraw. Without the compositor or the layer shell nothing happens.
    pub fn outputs_changed(&mut self) -> (ops: Vec<OutputOp>)
        requires
            old(self)@.generations_left(),
        ensures
            final(self)@ == old(self)@.rebuilt(),
            ops@ == old(self)@.rebuild_ops(),
    {
        let mut ops: Vec<OutputOp> = Vec::new();
        if !self.shell || !self.compositor {
            return ops;
        }
        let before: usize = self.surfaces.len();
        let ghost shell_gone = shell_destructions(before as nat);
        let ghost gone = surface_destructions(before as nat);
        let mut i: usize = 0;
        while i < before
            invariant
                i <= before,
                shell_gone == shell_destructions(before as nat),
                ops@ == shell_gone.take(i as int),
            decreases before - i,
        {
            ops.push(OutputOp::DestroyShellSurface { surface: i });
            i += 1;
        }
        let mut i: usize = 0;
        while i < before
            invariant
                i <= before,
                gone == surface_destructions(before as nat),
                ops@ == shell_gone + gone.take(i as int),
            decreases before - i,
        {
            ops.push(OutputOp::DestroySurface { surface: i });
            i += 1;
        }
        ops.push(OutputOp::ForgetSurfaces);
        self.generation = self.generation + 1;
        self.configured_surfaces = 0;

        let size = self.dimensions;
        let generation: u64 = self.generation;
        let ghost head = shell_gone + gone + seq![OutputOp::ForgetSurfaces];
        let mut surfaces: Vec<u32> = Vec::new();
        let mut i: usize = 0;
        while i < self.outputs.len()
            invariant
                i <= self.outputs@.len(),
                ops@ == head + creations(i as int, size, generation),
                surfaces@ == output_ids(self.outputs@).take(i as int),
            decreases self.outputs@.len() - i,
        {
            let ghost done = ops@;
            ops.push(OutputOp::CreateSurface { surface: i });
            ops.push(
                OutputOp::GetLayerSurface {
                    surface: i,
                    output: i,
                    layer: Layer::Overlay,
                    namespace: "",
                    generation,
                },
            );
            ops.push(OutputOp::SetKeyboardInteractivity { surface: i, interactivity: 1 });
            ops.push(OutputOp::SetSize { surface: i, size });
            ops.push(OutputOp::Commit { surface: i });
            assert(ops@ == done + creation_of(i, size, generation));
            surfaces.push(self.outputs[i].id);
            i += 1;
        }
        self.surfaces = surfaces;
        ops.push(OutputOp::RequestDraw { update: false });
        ops
    }

    /// Puts a monitor behind the others and makes the surfaces anew.
    pub fn add_output(&mut self, id: u32, version: u32) -> (ops: Vec<OutputOp>)
        requires
            old(self)@.generations_left(),
        ensures
            final(self)@ == old(self)@.added(Output { id, version }),
            ops@ == old(self)@.with_output(Output { id, version }).rebuild_ops(),
    {
        self.outputs.push(Output { id, version });
        self.outputs_changed()
    }

    /// Takes the monitor `id` out, releases it where its version knows that,
    /// and makes the surfaces anew. Does nothing if there is no such monitor.
    pub fn remove_output(&mut self, id: u32) -> (ops: Vec<OutputOp>)
        requires
            old(self)@.generations_left(),
        ensures
            final(self)@ == old(self)@.removed(id),
            ops@ == old(self)@.removal_ops(id),
    {
        let mut ops: Vec<OutputOp> = Vec::new();
        let ghost before = self.outputs@;
        let ghost keep = |o: Output| o.id != id;
        let mut found: Option<usize> = None;
        let mut kept: Vec<Output> = Vec::new();
        let mut i: usize = 0;
        while i < self.outputs.len()
            invariant
                i <= self.outputs@.len(),
                self.outputs@ == before,
                keep == (|o: Output| o.id != id),
                kept@ == before.take(i as int).filter(keep),
                found matches Some(k) ==> k < i && is_first_named(before, id, k as int),
                found is None ==> forall|j: int| 0 <= j < i ==> (#[trigger] before[j]).id != id,
            decreases self.outputs@.len() - i,
        {
            let output = self.outputs[i];
            proof {
                assert(before.take(i + 1).drop_last() == before.take(i as int));
                assert(before.take(i + 1).last() == output);
                reveal(Seq::filter);
            }
            if output.id != id {
                kept.push(output);
            } else if found.is_none() {
                found = Some(i);
            }
            i += 1;
        }
        assert(before.take(i as int) == before);
        if let Some(k) = found {
            assert(before[k as int].id == id);
            assert(forall|j: int| is_first_named(before, id, j) ==> j == k);
            if self.outputs[k].version >= RELEASE_SINCE {
                ops.push(OutputOp::Release { output: k });
            }
            ops.push(OutputOp::ForgetOutputs { id });
            self.outputs = kept;
            let mut rebuild = self.outputs_changed();
            ops.append(&mut rebuild);
        }
        ops
    }

    /// Adds or removes a monitor as the registry says, and ignores what is no
    /// monitor. A new one is bound first.
    pub fn global_event(&mut self, event: GlobalEvent) -> (ops: Vec<OutputOp>)
        requires
            old(self)@.generations_left(),
        ensures
            final(self)@ == old(self)@.after_global(event),
            ops@ == old(self)@.global_ops(event),
    {
        match event {
            GlobalEvent::New { id, interface, version } => {
                let mut ops: Vec<OutputOp> = Vec::new();
                if is_output_interface(&interface) {
                    ops.push(OutputOp::Bind { id, version });
                    let mut rebuild = self.add_output(id, version);
                    ops.append(&mut rebuild);
                }
                ops
            },
            GlobalEvent::Removed { id, interface } => {
                if is_output_interface(&interface) {
                    self.remove_output(id)
                } else {
                    Vec::new()
                }
            },
        }
    }

    /// A surface that was made in `generation` is configured. Only one of the
    /// present generation counts. Each is acknowledged, and each asks for a
    /// full redraw.
    pub fn configure(&mut self, generation: u64, serial: u32) -> (ops: Vec<OutputOp>)
        requires
            generation == old(self).generation ==> old(self).configured_surfaces < usize::MAX,
        ensures
            final(self)@ == old(self)@.configured(generation),
            ops@ == seq![
                OutputOp::AckConfigure { serial },
                OutputOp::RequestDraw { update: false },
            ],
    {
        if generation == self.generation {
            self.configured_surfaces = self.configured_surfaces + 1;
        }
        let mut ops: Vec<OutputOp> = Vec::new();
        ops.push(OutputOp::AckConfigure { serial });
        ops.push(OutputOp::RequestDraw { update: false });
        ops
    }

    /// Whether as many configure events have come as there are surfaces.
    pub fn is_ready(&self) -> (r: bool)
        ensures
            r == self@.ready(),
    {
        self.surfaces.len() == self.configured_surfaces
    }

    pub fn set_compositor(&mut self, compositor: bool)
        ensures
            final(self)@ == (InnerView { compositor, ..old(self)@ }),
    {
        self.compositor = compositor;
    }

    pub fn set_shell(&mut self, shell: bool)
        ensures
            final(self)@ == (InnerView { shell, ..old(self)@ }),
    {
        self.shell = shell;
    }

    pub fn set_dimensions(&mut self, dimensions: (u32, u32))
        ensures
            final(self)@ == (InnerView { dimensions, ..old(self)@ }),
    {
        self.dimensions = dimensions;
    }
}

/// Whether `interface` is that of a monitor.
fn is_output_interface(interface: &String) -> (r: bool)
    ensures
        r == (interface@ == "wl_output"@),
{
    *interface == "wl_output".to_owned()
}

/// Making the surfaces anew destroys each old one: first its layer surface,
/// then the surface itself, and both before any new one is made.
pub proof fn law_old_surfaces_go_first(s: InnerView, i: int)
    requires
        s.can_build(),
        0 <= i < s.surfaces.len(),
    ensures
        s.rebuild_ops()[i] == (OutputOp::DestroyShellSurface { surface: i as usize }),
        s.rebuild_ops()[s.surfaces.len() + i] == (OutputOp::DestroySurface {
            surface: i as usize,
        }),
        forall|k: int|
            0 <= k < s.rebuild_ops().len() && (#[trigger] s.rebuild_ops()[k]) is CreateSurface
                ==> i < s.surfaces.len() + i < k,
{
}

/// Once the compositor and the layer shell are at hand, making the surfaces
/// anew gives each monitor one, in the order of the monitors.
pub proof fn law_each_output_gets_a_surface(s: InnerView)
    requires
        s.can_build(),
    ensures
        s.rebuilt().in_sync(),
        s.rebuilt().surfaces.len() == s.outputs.len(),
{
}

/// Monitors that come and go leave one surface for each monitor.
pub proof fn law_surfaces_stay_in_sync(s: InnerView, event: GlobalEvent, generation: u64)
    requires
        s.can_build(),
        s.in_sync(),
    ensures
        s.after_global(event).can_build(),
        s.after_global(event).in_sync(),
        s.configured(generation).can_build(),
        s.configured(generation).in_sync(),
{
}

/// A monitor that is taken out is gone, and the others stay in their order.
pub proof fn law_removed_output_is_gone(s: InnerView, id: u32)
    ensures
        !has_output(s.removed(id).outputs, id),
        s.removed(id).outputs == without(s.outputs, id),
{
    let keep = |o: Output| o.id != id;
    if has_output(s.outputs, id) {
        assert forall|i: int| 0 <= i < without(s.outputs, id).len() implies (
        #[trigger] without(s.outputs, id)[i]).id != id by {
            s.outputs.lemma_filter_pred(keep, i);
        }
    } else {
        lemma_nothing_to_take_out(s.outputs, id);
    }
}

proof fn lemma_nothing_to_take_out(outputs: Seq<Output>, id: u32)
    requires
        !has_output(outputs, id),
    ensures
        without(outputs, id) == outputs,
    decreases outputs.len(),
{
    reveal(Seq::filter);
    if outputs.len() > 0 {
        let rest = outputs.drop_last();
        assert forall|i: int| 0 <= i < rest.len() implies (#[trigger] rest[i]).id != id by {
            assert(rest[i] == outputs[i]);
        }
        lemma_nothing_to_take_out(rest, id);
        assert(outputs[outputs.len() - 1] == outputs.last());
        assert(rest.push(outputs.last()) == outputs);
    }
}

/// A monitor that comes and goes again leaves the monitors, and the surfaces
/// if they were in step, as they were.
pub proof fn law_remove_undoes_add(s: InnerView, output: Output)
    requires
        !has_output(s.outputs, output.id),
    ensures
        s.added(output).removed(output.id).outputs == s.outputs,
        s.can_build() && s.in_sync() ==> s.added(output).removed(output.id).surfaces
            == s.surfaces,
        !s.can_build() ==> s.added(output).removed(output.id) == s,
{
    let all = s.outputs.push(output);
    assert(all[all.len() - 1].id == output.id);
    assert(has_output(all, output.id));
    lemma_nothing_to_take_out(s.outputs, output.id);
    reveal(Seq::filter);
    assert(all.drop_last() == s.outputs);
    assert(without(all, output.id) == s.outputs);
}

/// What is not a monitor is ignored.
pub proof fn law_other_globals_are_ignored(s: InnerView, event: GlobalEvent)
    requires
        match event {
            GlobalEvent::New { interface, .. } => interface@ != "wl_output"@,
            GlobalEvent::Removed { interface, .. } => interface@ != "wl_output"@,
        },
    ensures
        s.after_global(event) == s,
        s.global_ops(event) == Seq::<OutputOp>::empty(),
{
}

/// The state after `count` configure events of the present surfaces.
pub open spec fn configured_times(s: InnerView, count: nat) -> InnerView
    decreases count,
{
    if count == 0 {
        s
    } else {
        configured_times(s, (count - 1) as nat).configured(s.generation)
    }
}

/// After the surfaces were made anew, there may be drawn when as many of
/// their configure events have come as there are monitors.
pub proof fn law_ready_once_all_are_configured(s: InnerView, count: nat)
    requires
        s.can_build(),
        s.generations_left(),
        count <= usize::MAX,
    ensures
        configured_times(s.rebuilt(), count) == (InnerView {
            configured_surfaces: count as usize,
            ..s.rebuilt()
        }),
        configured_times(s.rebuilt(), count).ready() <==> count == s.outputs.len(),
    decreases count,
{
    if count > 0 {
        law_ready_once_all_are_configured(s, (count - 1) as nat);
    }
}

/// A configure event of a surface that was since replaced does not count.
pub proof fn law_replaced_surfaces_do_not_count(s: InnerView, generation: u64)
    requires
        s.can_build(),
        s.generations_left(),
        generation <= s.generation,
    ensures
        s.rebuilt().configured(generation) == s.rebuilt(),
{
}

/// The view of the monitors and surfaces loses nothing.
pub proof fn law_view_keeps_the_outputs(inner: AppInner)
    ensures
        inner@.compositor == inner.compositor,
        inner@.shell == inner.shell,
        inner@.outputs == inner.outputs@,
        inner@.surfaces == inner.surfaces@,
        inner@.generation == inner.generation,
        inner@.configured_surfaces == inner.configured_surfaces,
        inner@.dimensions == inner.dimensions,
{
}

/// At the start nothing is at hand, and there are no monitors and no surfaces.
pub proof fn law_begins_with_nothing()
    ensures
        ({
            let s = InnerView::initial();
            &&& !s.compositor
            &&& !s.shell
            &&& s.outputs.len() == 0
            &&& s.surfaces.len() == 0
            &&& s.generation == 0
            &&& s.configured_surfaces == 0
            &&& s.dimensions == (0u32, 0u32)
        }),
{
}

/// Without the compositor or without the layer shell the surfaces stay as they
/// are.
pub proof fn law_nothing_is_built_without_globals(s: InnerView)
    requires
        !s.compositor || !s.shell,
    ensures
        s.rebuilt() == s,
        s.rebuild_ops().len() == 0,
        s.generations_left(),
{
}

/// With the compositor and the layer shell the surfaces become those of the
/// monitors, one each and in their order, none of which is configured; they
/// are of a new generation. Nothing else changes.
pub proof fn law_rebuilt_surfaces_are_those_of_the_monitors(s: InnerView)
    requires
        s.compositor && s.shell,
    ensures
        s.generations_left() <==> s.generation < u64::MAX,
        s.rebuilt().surfaces.len() == s.outputs.len(),
        forall|i: int|
            0 <= i < s.outputs.len() ==> s.rebuilt().surfaces[i] == (#[trigger] s.outputs[i]).id,
        s.rebuilt().configured_surfaces == 0,
        s.generation < u64::MAX ==> s.rebuilt().generation == s.generation + 1,
        s.rebuilt().outputs == s.outputs,
        s.rebuilt().dimensions == s.dimensions,
        s.rebuilt().compositor && s.rebuilt().shell,
{
}

proof fn lemma_creations_by_index(count: int, size: (u32, u32), generation: u64, i: int)
    requires
        0 <= count <= usize::MAX,
    ensures
        creations(count, size, generation).len() == 5 * count,
        0 <= i < count ==> creations(count, size, generation).subrange(5 * i, 5 * i + 5)
            == creation_of(i as usize, size, generation),
    decreases count,
{
    if count > 0 {
        let all = creations(count, size, generation);
        let rest = creations(count - 1, size, generation);
        lemma_creations_by_index(count - 1, size, generation, i);
        if 0 <= i < count - 1 {
            assert(all.subrange(5 * i, 5 * i + 5) == rest.subrange(5 * i, 5 * i + 5));
        } else if i == count - 1 {
            assert(all.subrange(5 * i, 5 * i + 5) == creation_of(i as usize, size, generation));
        }
    }
}

/// Making the surfaces anew takes these steps and no others: all layer surfaces
/// are destroyed, all surfaces are destroyed, and their handles are dropped;
/// then come five steps for each monitor; then all is to be drawn.
pub proof fn law_rebuilding_in_steps(s: InnerView, i: int)
    requires
        s.compositor && s.shell,
        s.outputs.len() <= usize::MAX,
        s.surfaces.len() <= usize::MAX,
    ensures
        ({
            let ops = s.rebuild_ops();
            let old = s.surfaces.len();
            &&& ops.len() == 2 * old + 1 + 5 * s.outputs.len() + 1
            &&& 0 <= i < old ==> {
                &&& ops[i] matches OutputOp::DestroyShellSurface { surface }
                &&& surface == i
            }
            &&& 0 <= i < old ==> {
                &&& ops[old + i] matches OutputOp::DestroySurface { surface }
                &&& surface == i
            }
            &&& ops[2 * old as int] == OutputOp::ForgetSurfaces
            &&& ops.last() == (OutputOp::RequestDraw { update: false })
        }),
{
    lemma_creations_by_index(
        s.outputs.len() as int,
        s.dimensions,
        (s.generation + 1) as u64,
        0,
    );
}

/// The five steps for the monitor at `i`: a surface is created in the same
/// place among the surfaces, it gets a layer surface on that monitor, in the
/// overlay layer, without a name and of the new generation; that one takes the
/// keyboard and gets the size of the window; and the surface is committed.
pub proof fn law_each_monitor_in_five_steps(s: InnerView, i: int)
    requires
        s.compositor && s.shell,
        s.generation < u64::MAX,
        s.outputs.len() <= usize::MAX,
        0 <= i < s.outputs.len(),
    ensures
        ({
            let ops = s.rebuild_ops();
            let start = 2 * s.surfaces.len() + 1 + 5 * i;
            &&& start + 5 < ops.len()
            &&& ops[start] matches OutputOp::CreateSurface { surface }
            &&& surface == i
            &&& ops[start + 1] matches OutputOp::GetLayerSurface {
                surface: layered,
                output,
                layer,
                namespace,
                generation,
            }
            &&& layered == i
            &&& output == i
            &&& layer == Layer::Overlay
            &&& namespace@ == ""@
            &&& generation == s.generation + 1
            &&& generation == s.rebuilt().generation
            &&& ops[start + 2] == (OutputOp::SetKeyboardInteractivity { surface, interactivity: 1 })
            &&& ops[start + 3] == (OutputOp::SetSize { surface, size: s.dimensions })
            &&& ops[start + 4] == (OutputOp::Commit { surface })
        }),
{
    let generation = (s.generation + 1) as u64;
    let made = creations(s.outputs.len() as int, s.dimensions, generation);
    let head = 2 * s.surfaces.len() + 1;
    let ops = s.rebuild_ops();
    lemma_creations_by_index(s.outputs.len() as int, s.dimensions, generation, i);
    let five = made.subrange(5 * i, 5 * i + 5);
    assert forall|k: int| 0 <= k < 5 implies ops[head + 5 * i + k] == #[trigger] five[k] by {
        assert(five[k] == made[5 * i + k]);
    }
    assert(ops[head + 5 * i] == five[0]);
    assert(ops[head + 5 * i + 1] == five[1]);
    assert(ops[head + 5 * i + 2] == five[2]);
    assert(ops[head + 5 * i + 3] == five[3]);
    assert(ops[head + 5 * i + 4] == five[4]);
}

/// A monitor that is announced is bound, stands behind the others, and the
/// surfaces are made anew with it.
pub proof fn law_announced_monitor_is_added(
    s: InnerView,
    id: u32,
    interface: String,
    version: u32,
)
    requires
        interface@ == "wl_output"@,
    ensures
        ({
            let event = GlobalEvent::New { id, interface, version };
            let more = InnerView { outputs: s.outputs.push(Output { id, version }), ..s };
            &&& s.after_global(event) == more.rebuilt()
            &&& s.added(Output { id, version }) == more.rebuilt()
            &&& s.with_output(Output { id, version }) == more
            &&& s.global_ops(event).len() == 1 + more.rebuild_ops().len()
            &&& s.global_ops(event)[0] == (OutputOp::Bind { id, version })
            &&& s.global_ops(event).skip(1) == more.rebuild_ops()
        }),
{
}

/// A monitor that nobody announced leaves without a trace.
pub proof fn law_unknown_monitor_leaves_no_trace(s: InnerView, id: u32, interface: String)
    requires
        forall|i: int| 0 <= i < s.outputs.len() ==> (#[trigger] s.outputs[i]).id != id,
    ensures
        s.after_global(GlobalEvent::Removed { id, interface }) == s,
        s.global_ops(GlobalEvent::Removed { id, interface }).len() == 0,
        s.removed(id) == s,
        s.removal_ops(id).len() == 0,
{
}

/// A monitor that goes is released if it is of version 3 or later, and not if
/// it is of an earlier one; of several monitors with its name that is the
/// first. The handles of that name are dropped, then the surfaces are made anew
/// for those monitors that are left.
pub proof fn law_leaving_monitor_is_released(s: InnerView, id: u32, interface: String, i: int)
    requires
        interface@ == "wl_output"@,
        s.outputs.len() <= usize::MAX,
        0 <= i < s.outputs.len(),
        s.outputs[i].id == id,
        forall|j: int| 0 <= j < i ==> (#[trigger] s.outputs[j]).id != id,
    ensures
        ({
            let event = GlobalEvent::Removed { id, interface };
            let left = InnerView { outputs: without(s.outputs, id), ..s };
            let ops = s.global_ops(event);
            let releases = if s.outputs[i].version >= 3 {
                1int
            } else {
                0
            };
            &&& s.after_global(event) == left.rebuilt()
            &&& s.removed(id) == left.rebuilt()
            &&& s.removal_ops(id) == ops
            &&& ops.len() == releases + 1 + left.rebuild_ops().len()
            &&& s.outputs[i].version >= 3 ==> {
                &&& ops[0] matches OutputOp::Release { output }
                &&& output == i
            }
            &&& ops[releases] == (OutputOp::ForgetOutputs { id })
            &&& ops.skip(releases + 1) == left.rebuild_ops()
        }),
{
    let first = first_named(s.outputs, id);
    assert(is_first_named(s.outputs, id, i));
    assert(is_first_named(s.outputs, id, first));
    assert(first == i) by {
        if first < i {
            assert(s.outputs[first].id != id);
        } else if i < first {
            assert(s.outputs[i].id != id);
        }
    }
    let event = GlobalEvent::Removed { id, interface };
    let left = InnerView { outputs: without(s.outputs, id), ..s };
    assert(has_output(s.outputs, id));
    if s.outputs[i].version >= RELEASE_SINCE {
        assert(s.global_ops(event).skip(2) == left.rebuild_ops());
    } else {
        assert(s.global_ops(event).skip(1) == left.rebuild_ops());
    }
}

/// Taking a name out of some monitors and of others behind them is taking it
/// out of all of them, and of a single monitor it takes that one just if it has
/// the name.
pub proof fn law_taking_out_goes_by_name(
    front: Seq<Output>,
    back: Seq<Output>,
    output: Output,
    id: u32,
)
    ensures
        without(front + back, id) == without(front, id) + without(back, id),
        output.id == id ==> without(seq![output], id).len() == 0,
        output.id != id ==> without(seq![output], id) == seq![output],
        without(Seq::empty(), id).len() == 0,
{
    reveal(Seq::filter);
    Seq::filter_distributes_over_add(front, back, |o: Output| o.id != id);
    assert(seq![output].drop_last() == Seq::<Output>::empty());
    let keep = |o: Output| o.id != id;
    assert(Seq::<Output>::empty().filter(keep) == Seq::<Output>::empty());
    assert(without(seq![output], id) == if output.id != id {
        Seq::<Output>::empty().push(output)
    } else {
        Seq::<Output>::empty()
    });
}

/// A configure event counts once, and only if it is of the present generation.
/// There may be drawn when as many of them have come as there are surfaces.
pub proof fn law_configure_events_are_counted(s: InnerView, generation: u64)
    requires
        s.configured_surfaces < usize::MAX,
    ensures
        generation != s.generation ==> s.configured(generation) == s,
        generation == s.generation ==> {
            let later = s.configured(generation);
            &&& later.configured_surfaces == s.configured_surfaces + 1
            &&& later.surfaces == s.surfaces
            &&& later.outputs == s.outputs
            &&& later.generation == s.generation
            &&& later.dimensions == s.dimensions
            &&& later.compositor == s.compositor
            &&& later.shell == s.shell
        },
        s.ready() <==> s.configured_surfaces == s.surfaces.len(),
{
}

} // verus!
