use wldash::outputs::{AppInner, GlobalEvent, Layer, Output, OutputOp};

fn started() -> AppInner {
    let mut inner = AppInner::new();
    inner.set_compositor(true);
    inner.set_shell(true);
    inner.set_dimensions((1272, 752));
    inner
}

fn new_global(id: u32, interface: &str, version: u32) -> GlobalEvent {
    GlobalEvent::New { id, interface: interface.to_string(), version }
}

fn removed_global(id: u32, interface: &str) -> GlobalEvent {
    GlobalEvent::Removed { id, interface: interface.to_string() }
}

fn created(count: usize, generation: u64) -> Vec<OutputOp> {
    let mut ops = vec![];
    for i in 0..count {
        ops.push(OutputOp::CreateSurface { surface: i });
        ops.push(OutputOp::GetLayerSurface {
            surface: i,
            output: i,
            layer: Layer::Overlay,
            namespace: "",
            generation,
        });
        ops.push(OutputOp::SetKeyboardInteractivity { surface: i, interactivity: 1 });
        ops.push(OutputOp::SetSize { surface: i, size: (1272, 752) });
        ops.push(OutputOp::Commit { surface: i });
    }
    ops
}

fn rebuilt(before: usize, after: usize, generation: u64) -> Vec<OutputOp> {
    let mut ops = vec![];
    for surface in 0..before {
        ops.push(OutputOp::DestroyShellSurface { surface });
    }
    for surface in 0..before {
        ops.push(OutputOp::DestroySurface { surface });
    }
    ops.push(OutputOp::ForgetSurfaces);
    ops.extend(created(after, generation));
    ops.push(OutputOp::RequestDraw { update: false });
    ops
}

#[test]
fn starts_with_nothing() {
    let inner = AppInner::new();
    assert!(!inner.compositor && !inner.shell);
    assert!(inner.outputs.is_empty() && inner.surfaces.is_empty());
    assert_eq!(inner.dimensions, (0, 0));
    assert!(inner.is_ready());
}

#[test]
fn no_surfaces_before_both_globals_are_there() {
    let mut inner = AppInner::new();
    assert_eq!(inner.add_output(7, 3), vec![]);
    assert_eq!(inner.outputs, vec![Output { id: 7, version: 3 }]);
    inner.set_compositor(true);
    assert_eq!(inner.outputs_changed(), vec![]);
    inner.set_compositor(false);
    inner.set_shell(true);
    assert_eq!(inner.outputs_changed(), vec![]);
    assert!(inner.surfaces.is_empty());
    assert_eq!(inner.generation, 0);
}

#[test]
fn surfaces_are_made_for_outputs_that_came_early() {
    let mut inner = AppInner::new();
    inner.add_output(7, 3);
    inner.add_output(9, 2);
    inner.set_compositor(true);
    inner.set_shell(true);
    inner.set_dimensions((1272, 752));
    assert_eq!(inner.outputs_changed(), rebuilt(0, 2, 1));
    assert_eq!(inner.surfaces, vec![7, 9]);
}

#[test]
fn old_surfaces_are_destroyed_layer_surfaces_first() {
    let mut inner = started();
    inner.add_output(1, 3);
    inner.add_output(2, 3);
    let ops = inner.add_output(3, 3);
    assert_eq!(
        ops[..5],
        [
            OutputOp::DestroyShellSurface { surface: 0 },
            OutputOp::DestroyShellSurface { surface: 1 },
            OutputOp::DestroySurface { surface: 0 },
            OutputOp::DestroySurface { surface: 1 },
            OutputOp::ForgetSurfaces,
        ]
    );
    assert_eq!(ops, rebuilt(2, 3, 3));
}

#[test]
fn removal_releases_from_version_three_on() {
    let mut inner = started();
    inner.add_output(1, 2);
    inner.add_output(2, 3);
    let ops = inner.remove_output(2);
    assert_eq!(ops[..2], [OutputOp::Release { output: 1 }, OutputOp::ForgetOutputs { id: 2 }]);
    assert_eq!(ops[2..], rebuilt(2, 1, 3));
    assert_eq!(inner.outputs, vec![Output { id: 1, version: 2 }]);
    assert_eq!(inner.surfaces, vec![1]);
    let ops = inner.remove_output(1);
    assert_eq!(
        ops,
        vec![
            OutputOp::ForgetOutputs { id: 1 },
            OutputOp::DestroyShellSurface { surface: 0 },
            OutputOp::DestroySurface { surface: 0 },
            OutputOp::ForgetSurfaces,
            OutputOp::RequestDraw { update: false },
        ]
    );
    assert!(inner.surfaces.is_empty());
}

#[test]
fn removal_of_an_unknown_output_does_nothing() {
    let mut inner = started();
    inner.add_output(1, 3);
    let generation = inner.generation;
    assert_eq!(inner.remove_output(5), vec![]);
    assert_eq!(inner.generation, generation);
    assert_eq!(inner.surfaces, vec![1]);
}

#[test]
fn removal_takes_out_every_output_of_the_name() {
    let mut inner = AppInner::new();
    inner.add_output(4, 2);
    inner.add_output(5, 3);
    inner.add_output(4, 3);
    assert_eq!(inner.remove_output(4), vec![OutputOp::ForgetOutputs { id: 4 }]);
    assert_eq!(inner.outputs, vec![Output { id: 5, version: 3 }]);
}

#[test]
fn removal_undoes_addition() {
    let mut inner = started();
    inner.add_output(1, 3);
    inner.add_output(2, 3);
    let (outputs, surfaces) = (inner.outputs.clone(), inner.surfaces.clone());
    inner.add_output(3, 3);
    inner.remove_output(3);
    assert_eq!(inner.outputs, outputs);
    assert_eq!(inner.surfaces, surfaces);
}

#[test]
fn globals_other_than_outputs_are_ignored() {
    let mut inner = started();
    assert_eq!(inner.global_event(new_global(1, "wl_seat", 5)), vec![]);
    assert_eq!(inner.global_event(new_global(1, "wl_output_", 5)), vec![]);
    assert!(inner.outputs.is_empty());
    let ops = inner.global_event(new_global(1, "wl_output", 3));
    assert_eq!(ops[0], OutputOp::Bind { id: 1, version: 3 });
    assert_eq!(ops[1..], rebuilt(0, 1, 1));
    assert_eq!(inner.global_event(removed_global(1, "wl_seat")), vec![]);
    assert_eq!(inner.outputs.len(), 1);
    let ops = inner.global_event(removed_global(1, "wl_output"));
    assert_eq!(ops[0], OutputOp::Release { output: 0 });
    assert!(inner.outputs.is_empty());
}

#[test]
fn ready_once_every_surface_is_configured() {
    let mut inner = started();
    inner.add_output(1, 3);
    inner.add_output(2, 3);
    let generation = inner.generation;
    assert!(!inner.is_ready());
    let ops = inner.configure(generation, 11);
    assert_eq!(
        ops,
        vec![
            OutputOp::AckConfigure { serial: 11 },
            OutputOp::RequestDraw { update: false },
        ]
    );
    assert!(!inner.is_ready());
    inner.configure(generation, 12);
    assert!(inner.is_ready());
    inner.configure(generation, 13);
    assert!(!inner.is_ready());
}

#[test]
fn replaced_surfaces_do_not_count() {
    let mut inner = started();
    inner.add_output(1, 3);
    let before = inner.generation;
    inner.add_output(2, 3);
    let ops = inner.configure(before, 5);
    assert_eq!(ops[0], OutputOp::AckConfigure { serial: 5 });
    assert_eq!(inner.configured_surfaces, 0);
}

/// A surface with its monitor, and whether it and its layer surface are alive.
#[derive(Debug)]
struct Held {
    output: u32,
    alive: bool,
    layered: bool,
    keyboard: bool,
    sized: bool,
    commits: u32,
}

#[test]
fn handles_follow_the_surfaces() {
    let mut inner = started();
    let mut monitors: Vec<u32> = vec![];
    let mut handles: Vec<Held> = vec![];
    let events = vec![
        new_global(1, "wl_output", 3),
        new_global(2, "wl_output", 2),
        new_global(3, "wl_shm", 1),
        removed_global(1, "wl_output"),
        new_global(4, "wl_output", 3),
        removed_global(9, "wl_output"),
        removed_global(2, "wl_output"),
        removed_global(4, "wl_output"),
        new_global(5, "wl_output", 3),
        new_global(5, "wl_output", 3),
    ];
    for event in events {
        for op in inner.global_event(event) {
            match op {
                OutputOp::Bind { id, .. } => monitors.push(id),
                OutputOp::Release { output } => assert!(output < monitors.len()),
                OutputOp::ForgetOutputs { id } => monitors.retain(|m| *m != id),
                OutputOp::DestroyShellSurface { surface } => {
                    assert!(handles[surface].layered);
                    handles[surface].layered = false;
                }
                OutputOp::DestroySurface { surface } => {
                    assert!(handles[surface].alive && !handles[surface].layered);
                    handles[surface].alive = false;
                }
                OutputOp::ForgetSurfaces => {
                    assert!(handles.iter().all(|h| !h.alive));
                    handles.clear();
                }
                OutputOp::CreateSurface { surface } => {
                    assert_eq!(surface, handles.len());
                    handles.push(Held {
                        output: 0,
                        alive: true,
                        layered: false,
                        keyboard: false,
                        sized: false,
                        commits: 0,
                    });
                }
                OutputOp::GetLayerSurface { surface, output, .. } => {
                    handles[surface].layered = true;
                    handles[surface].output = monitors[output];
                }
                OutputOp::SetKeyboardInteractivity { surface, interactivity } => {
                    handles[surface].keyboard = interactivity == 1;
                }
                OutputOp::SetSize { surface, size } => {
                    assert_eq!(size, (1272, 752));
                    handles[surface].sized = true;
                }
                OutputOp::Commit { surface } => {
                    assert!(handles[surface].keyboard && handles[surface].sized);
                    handles[surface].commits += 1;
                }
                OutputOp::AckConfigure { .. } => panic!("nothing was configured"),
                OutputOp::RequestDraw { update } => assert!(!update),
            }
        }
        let ids: Vec<u32> = inner.outputs.iter().map(|o| o.id).collect();
        assert_eq!(monitors, ids);
        assert_eq!(inner.surfaces, ids);
        assert_eq!(handles.iter().map(|h| h.output).collect::<Vec<u32>>(), ids);
        assert!(handles.iter().all(|h| h.alive && h.layered && h.commits == 1));
    }
    assert_eq!(monitors, vec![5, 5]);
}
