use wldash::app::App;
use wldash::layout::Available;
use wldash::module::{Module, ModuleKind};
use wldash::redraw::{DrawAction, DrawEvent, Format, Phase, PresentOp, Redraw};

fn shown(outputs: u32) -> App {
    let mut app = App::new();
    app.inner.set_compositor(true);
    app.inner.set_shell(true);
    for id in 0..outputs {
        app.inner.add_output(id, 3);
    }
    app.set_modules(Available {
        launcher: false,
        battery: true,
        backlight: false,
        sound: false,
    });
    let generation = app.inner.generation;
    for serial in 0..outputs {
        app.inner.configure(generation, serial);
    }
    app
}

fn step(r: &mut Redraw, event: DrawEvent<String>) -> DrawAction<String> {
    r.step(event)
}

fn whole_buffer() -> PresentOp {
    PresentOp::CreateBuffer {
        offset: 0,
        width: 1272,
        height: 752,
        stride: 5088,
        format: Format::Argb8888,
    }
}

fn begun(app: &App, force: bool) -> Redraw {
    app.redraw(force).unwrap()
}

#[test]
fn no_redraw_before_the_surfaces_are_configured() {
    let mut app = shown(1);
    app.inner.add_output(9, 3);
    assert!(app.redraw(true).is_none());
    let generation = app.inner.generation;
    app.inner.configure(generation, 1);
    assert!(app.redraw(true).is_none());
    app.inner.configure(generation, 2);
    assert!(app.redraw(true).is_some());
}

#[test]
fn no_redraw_without_a_free_pool() {
    let mut r = begun(&shown(1), false);
    assert_eq!(step(&mut r, DrawEvent::Pool { free: false }), DrawAction::Finish);
    assert_eq!(r.phase, Phase::Done);
}

#[test]
fn panels_are_asked_in_turn_and_changed_ones_draw() {
    let mut r = begun(&shown(2), true);
    assert_eq!(
        step(&mut r, DrawEvent::Pool { free: true }),
        DrawAction::Resize { bytes: 4 * 1272 * 752 }
    );
    assert_eq!(step(&mut r, DrawEvent::Resized), DrawAction::Update { module: 0, force: true });
    assert_eq!(
        step(&mut r, DrawEvent::Updated { changed: true }),
        DrawAction::Draw { module: 0, area: (20, 20, 536, 320) }
    );
    assert_eq!(
        step(&mut r, DrawEvent::Drawn { damage: vec![(1, 2, 3, 4)] }),
        DrawAction::Update { module: 1, force: true }
    );
    assert_eq!(
        step(&mut r, DrawEvent::Updated { changed: false }),
        DrawAction::Update { module: 2, force: true }
    );
    assert_eq!(
        step(&mut r, DrawEvent::Updated { changed: true }),
        DrawAction::Draw { module: 2, area: (660, 20, 592, 32) }
    );
    assert_eq!(
        step(&mut r, DrawEvent::Drawn { damage: vec![(5, 6, 7, 8)] }),
        DrawAction::Flush
    );
    let present = step(&mut r, DrawEvent::Flushed);
    assert_eq!(
        present,
        DrawAction::Present {
            ops: vec![
                whole_buffer(),
                PresentOp::Attach { surface: 0, x: 0, y: 0 },
                PresentOp::Damage { surface: 0, damage: (1, 2, 3, 4) },
                PresentOp::Damage { surface: 0, damage: (5, 6, 7, 8) },
                PresentOp::Commit { surface: 0 },
                PresentOp::Attach { surface: 1, x: 0, y: 0 },
                PresentOp::Damage { surface: 1, damage: (1, 2, 3, 4) },
                PresentOp::Damage { surface: 1, damage: (5, 6, 7, 8) },
                PresentOp::Commit { surface: 1 },
            ],
        }
    );
    assert_eq!(r.phase, Phase::Done);
}

#[test]
fn nothing_new_shows_nothing() {
    let mut r = begun(&shown(1), false);
    step(&mut r, DrawEvent::Pool { free: true });
    assert_eq!(step(&mut r, DrawEvent::Resized), DrawAction::Update { module: 0, force: false });
    step(&mut r, DrawEvent::Updated { changed: false });
    step(&mut r, DrawEvent::Updated { changed: false });
    assert_eq!(step(&mut r, DrawEvent::Updated { changed: false }), DrawAction::Flush);
    assert_eq!(step(&mut r, DrawEvent::Flushed), DrawAction::Finish);
}

#[test]
fn drawing_without_damage_shows_nothing() {
    let mut r = begun(&shown(1), false);
    step(&mut r, DrawEvent::Pool { free: true });
    step(&mut r, DrawEvent::Resized);
    step(&mut r, DrawEvent::Updated { changed: true });
    step(&mut r, DrawEvent::Drawn { damage: vec![] });
    step(&mut r, DrawEvent::Updated { changed: false });
    step(&mut r, DrawEvent::Updated { changed: false });
    assert_eq!(step(&mut r, DrawEvent::Flushed), DrawAction::Finish);
}

#[test]
fn without_surfaces_only_the_buffer_is_made() {
    let mut r = begun(&shown(0), false);
    step(&mut r, DrawEvent::Pool { free: true });
    step(&mut r, DrawEvent::Resized);
    step(&mut r, DrawEvent::Updated { changed: true });
    step(&mut r, DrawEvent::Drawn { damage: vec![(0, 0, 1, 1)] });
    step(&mut r, DrawEvent::Updated { changed: false });
    step(&mut r, DrawEvent::Updated { changed: false });
    assert_eq!(
        step(&mut r, DrawEvent::Flushed),
        DrawAction::Present {
            ops: vec![whole_buffer()],
        }
    );
}

#[test]
fn a_panel_that_sticks_out_ends_the_redraw_once_it_changed() {
    let mut app = shown(0);
    app.modules = vec![Module::new(ModuleKind::Clock, (0, 0, 1233, 1))];
    let mut r = begun(&app, false);
    step(&mut r, DrawEvent::Pool { free: true });
    step(&mut r, DrawEvent::Resized);
    assert_eq!(
        step(&mut r, DrawEvent::Updated { changed: true }),
        DrawAction::OutOfBounds { module: 0 }
    );
    assert_eq!(r.phase, Phase::Done);

    let mut r = begun(&app, false);
    step(&mut r, DrawEvent::Pool { free: true });
    step(&mut r, DrawEvent::Resized);
    assert_eq!(step(&mut r, DrawEvent::Updated { changed: false }), DrawAction::Flush);
}

#[test]
fn no_panels_go_straight_to_the_flush() {
    let mut app = shown(0);
    app.modules = vec![];
    let mut r = begun(&app, false);
    step(&mut r, DrawEvent::Pool { free: true });
    assert_eq!(step(&mut r, DrawEvent::Resized), DrawAction::Flush);
}

#[test]
fn wiping_covers_the_whole_window() {
    let app = shown(1);
    assert_eq!(app.wipe(true), Some(4 * 1272 * 752));
    assert_eq!(app.wipe(false), None);
}

#[test]
fn every_panel_of_every_layout_has_room() {
    for bits in 0..16u32 {
        let mut app = App::new();
        app.set_modules(Available {
            launcher: bits & 1 != 0,
            battery: bits & 2 != 0,
            backlight: bits & 4 != 0,
            sound: bits & 8 != 0,
        });
        let mut r = begun(&app, true);
        let mut drawn = 0;
        let mut action = step(&mut r, DrawEvent::Pool { free: true });
        loop {
            let event = match action {
                DrawAction::Resize { .. } => DrawEvent::Resized,
                DrawAction::Update { module, .. } => {
                    assert_eq!(module, drawn);
                    DrawEvent::Updated { changed: true }
                }
                DrawAction::Draw { module, area } => {
                    let bounds = app.modules[module].get_bounds();
                    assert_eq!(area, (bounds.0 + 20, bounds.1 + 20, bounds.2, bounds.3));
                    drawn += 1;
                    DrawEvent::Drawn { damage: vec![] }
                }
                DrawAction::Flush => DrawEvent::Flushed,
                DrawAction::Finish => break,
                other => panic!("unexpected {:?}", other),
            };
            action = step(&mut r, event);
        }
        assert_eq!(drawn, app.modules.len());
    }
}

#[test]
fn a_panel_that_cannot_be_asked_ends_the_redraw() {
    let mut r = begun(&shown(1), true);
    step(&mut r, DrawEvent::Pool { free: true });
    step(&mut r, DrawEvent::Resized);
    step(&mut r, DrawEvent::Updated { changed: true });
    step(&mut r, DrawEvent::Drawn { damage: vec![(1, 2, 3, 4)] });
    assert_eq!(
        step(&mut r, DrawEvent::Failed { error: "no battery".to_string() }),
        DrawAction::Fail { error: "no battery".to_string() }
    );
    assert_eq!(r.phase, Phase::Done);
}

#[test]
fn a_panel_that_cannot_draw_ends_the_redraw() {
    let mut r = begun(&shown(1), true);
    step(&mut r, DrawEvent::Pool { free: true });
    step(&mut r, DrawEvent::Resized);
    assert_eq!(
        step(&mut r, DrawEvent::Updated { changed: true }),
        DrawAction::Draw { module: 0, area: (20, 20, 536, 320) }
    );
    assert_eq!(
        step(&mut r, DrawEvent::Failed { error: "no font".to_string() }),
        DrawAction::Fail { error: "no font".to_string() }
    );
    assert_eq!(r.phase, Phase::Done);
}
