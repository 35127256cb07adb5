use wldash::app::{App, LoopOp};
use wldash::cmd::{draw_request, Cmd, CmdQueue};
use wldash::input::Input;
use wldash::keyboard::{keyboard_event, KbEvent, KeyState};
use wldash::layout::Available;
use wldash::pointer::{Axis, ButtonState, Pointer, PointerEvent};
use wldash::wake::{woken, WakeOp};

const ESCAPE: u32 = 0xff1b;

fn key(keysym: u32, text: Option<&str>, state: KeyState) -> KbEvent {
    KbEvent::Key { keysym, utf8: text.map(|t| t.to_string()), state }
}

fn motion(x: i32, y: i32) -> PointerEvent {
    PointerEvent::Motion { surface_x: x * 256, surface_y: y * 256 }
}

fn placed() -> App {
    let mut app = App::new();
    app.set_modules(Available {
        launcher: true,
        battery: true,
        backlight: false,
        sound: false,
    });
    app
}

#[test]
fn escape_ends_the_program_when_pressed() {
    assert_eq!(keyboard_event(key(ESCAPE, None, KeyState::Pressed)), Some(Cmd::Exit));
    assert_eq!(keyboard_event(key(ESCAPE, None, KeyState::Released)), None);
    assert_eq!(
        smithay_client_toolkit::keyboard::keysyms::XKB_KEY_Escape,
        ESCAPE
    );
}

#[test]
fn other_keys_are_inputs() {
    assert_eq!(
        keyboard_event(key(0x61, Some("a"), KeyState::Pressed)),
        Some(Cmd::KeyboardInput {
            input: Input::Keypress { key: 0x61, interpreted: Some("a".to_string()) },
        })
    );
    assert_eq!(keyboard_event(key(0x61, Some("a"), KeyState::Released)), None);
    assert_eq!(keyboard_event(KbEvent::Other), None);
}

#[test]
fn positions_are_cut_to_pixels() {
    let mut p = Pointer::new();
    p.handle(PointerEvent::Enter { surface_x: 255, surface_y: 256 });
    assert_eq!(p.pos, (0, 1));
    p.handle(PointerEvent::Motion { surface_x: -1, surface_y: i32::MAX });
    assert_eq!(p.pos, (0, 8388607));
    p.handle(PointerEvent::Motion { surface_x: i32::MIN, surface_y: 1279 });
    assert_eq!(p.pos, (0, 4));
    p.handle(PointerEvent::Leave);
    assert_eq!(p.pos, (0, 0));
}

#[test]
fn a_frame_passes_on_scrolling_and_then_the_click() {
    let mut p = Pointer::new();
    assert_eq!(p.handle(motion(30, 25)), vec![]);
    p.handle(PointerEvent::Axis { axis: Axis::VerticalScroll, value: 2560 });
    p.handle(PointerEvent::Axis { axis: Axis::VerticalScroll, value: -512 });
    p.handle(PointerEvent::Button { button: 272, state: ButtonState::Released });
    let cmds = p.handle(PointerEvent::Frame);
    assert_eq!(
        cmds,
        vec![
            Cmd::MouseInput {
                pos: (10, 5),
                input: Input::Scroll { pos: (10, 5), x: 0, y: 2048 },
            },
            Cmd::MouseInput {
                pos: (10, 5),
                input: Input::Click { pos: (10, 5), button: 272 },
            },
        ]
    );
    assert_eq!(p.handle(PointerEvent::Frame), vec![]);
}

#[test]
fn a_press_and_sideways_scrolling_are_nothing() {
    let mut p = Pointer::new();
    p.handle(motion(30, 25));
    p.handle(PointerEvent::Button { button: 272, state: ButtonState::Pressed });
    p.handle(PointerEvent::Axis { axis: Axis::HorizontalScroll, value: 2560 });
    p.handle(PointerEvent::Other);
    assert_eq!(p.handle(PointerEvent::Frame), vec![]);
}

#[test]
fn scrolling_that_cancels_out_is_nothing() {
    let mut p = Pointer::new();
    p.handle(motion(30, 25));
    p.handle(PointerEvent::Axis { axis: Axis::VerticalScroll, value: 2560 });
    p.handle(PointerEvent::Axis { axis: Axis::VerticalScroll, value: -2560 });
    assert_eq!(p.handle(PointerEvent::Frame), vec![]);
}

#[test]
fn the_last_button_of_a_frame_counts() {
    let mut p = Pointer::new();
    p.handle(motion(20, 20));
    p.handle(PointerEvent::Button { button: 272, state: ButtonState::Released });
    p.handle(PointerEvent::Button { button: 273, state: ButtonState::Released });
    assert_eq!(
        p.handle(PointerEvent::Frame),
        vec![Cmd::MouseInput {
            pos: (0, 0),
            input: Input::Click { pos: (0, 0), button: 273 },
        }]
    );
}

#[test]
fn the_margin_keeps_what_waits() {
    for (x, y) in [(19, 100), (100, 19)] {
        let mut p = Pointer::new();
        p.handle(motion(x, y));
        p.handle(PointerEvent::Button { button: 272, state: ButtonState::Released });
        assert_eq!(p.handle(PointerEvent::Frame), vec![]);
        p.handle(motion(20, 21));
        assert_eq!(
            p.handle(PointerEvent::Frame),
            vec![Cmd::MouseInput {
                pos: (0, 1),
                input: Input::Click { pos: (0, 1), button: 272 },
            }]
        );
    }
}

#[test]
fn scrolling_stays_in_range() {
    let mut p = Pointer::new();
    p.vert_scroll = i64::MAX;
    p.handle(PointerEvent::Axis { axis: Axis::VerticalScroll, value: 5 });
    assert_eq!(p.vert_scroll, i64::MAX);
    p.vert_scroll = i64::MIN;
    p.handle(PointerEvent::Axis { axis: Axis::VerticalScroll, value: -5 });
    assert_eq!(p.vert_scroll, i64::MIN);
}

#[test]
fn inputs_are_counted_from_a_corner() {
    let click = Input::Click { pos: (700, 40), button: 1 };
    assert_eq!(click.offset((640, 32)), Input::Click { pos: (60, 8), button: 1 });
    let scroll = Input::Scroll { pos: (5, 5), x: 1, y: -2 };
    assert_eq!(scroll.offset((5, 4)), Input::Scroll { pos: (0, 1), x: 1, y: -2 });
    let press = Input::Keypress { key: 3, interpreted: Some("x".to_string()) };
    assert_eq!(press.clone().offset((900, 900)), press);
}

#[test]
fn draw_requests() {
    assert_eq!(draw_request(true), Cmd::Draw);
    assert_eq!(draw_request(false), Cmd::ForceDraw);
}

#[test]
fn the_queue_is_first_in_first_out() {
    let mut q = CmdQueue::new();
    assert_eq!(q.pop_front(), None);
    q.push_back(Cmd::Draw);
    q.push_all(vec![Cmd::ForceDraw, Cmd::Exit]);
    assert_eq!(q.pop_front(), Some(Cmd::Draw));
    assert_eq!(q.pop_front(), Some(Cmd::ForceDraw));
    assert_eq!(q.pop_front(), Some(Cmd::Exit));
    assert_eq!(q.pop_front(), None);
}

#[test]
fn nothing_to_do_means_to_wait() {
    let mut app = App::new();
    assert_eq!(app.next(), vec![LoopOp::FlushDisplay, LoopOp::Wait]);
}

#[test]
fn draw_commands_redraw_and_flush() {
    let mut app = placed();
    app.request_draw(true);
    app.request_draw(false);
    app.keyboard(key(ESCAPE, None, KeyState::Pressed));
    assert_eq!(app.next(), vec![LoopOp::Redraw { force: false }, LoopOp::FlushDisplay]);
    assert_eq!(app.next(), vec![LoopOp::Redraw { force: true }, LoopOp::FlushDisplay]);
    assert_eq!(app.next(), vec![LoopOp::Exit]);
    assert_eq!(app.next(), vec![LoopOp::FlushDisplay, LoopOp::Wait]);
}

#[test]
fn keys_go_to_every_panel_and_lead_to_a_redraw() {
    let mut app = placed();
    app.keyboard(key(0x61, Some("a"), KeyState::Pressed));
    let input = Input::Keypress { key: 0x61, interpreted: Some("a".to_string()) };
    let ops = app.next();
    assert_eq!(ops.len(), 4);
    for (module, op) in ops.iter().enumerate() {
        assert_eq!(*op, LoopOp::Deliver { module, input: input.clone() });
    }
    assert_eq!(app.next(), vec![LoopOp::Redraw { force: false }, LoopOp::FlushDisplay]);
}

#[test]
fn a_click_goes_to_the_panel_under_it() {
    let mut app = placed();
    app.pointer(motion(20 + 650, 20 + 3));
    app.pointer(PointerEvent::Button { button: 272, state: ButtonState::Released });
    app.request_draw(false);
    app.pointer(PointerEvent::Frame);
    assert_eq!(app.next(), vec![LoopOp::Redraw { force: true }, LoopOp::FlushDisplay]);
    assert_eq!(
        app.next(),
        vec![LoopOp::Deliver {
            module: 3,
            input: Input::Click { pos: (10, 3), button: 272 },
        }]
    );
    assert_eq!(app.next(), vec![LoopOp::Redraw { force: false }, LoopOp::FlushDisplay]);
}

#[test]
fn a_click_beside_the_panels_is_nothing() {
    let mut app = placed();
    app.pointer(motion(20 + 600, 20 + 3));
    app.pointer(PointerEvent::Button { button: 272, state: ButtonState::Released });
    app.pointer(PointerEvent::Frame);
    assert_eq!(app.next(), vec![]);
    assert_eq!(app.next(), vec![LoopOp::FlushDisplay, LoopOp::Wait]);
}

#[test]
fn a_readable_socket_is_read_before_the_pipe() {
    let pollin = nix::poll::PollFlags::POLLIN.bits();
    let pollhup = nix::poll::PollFlags::POLLHUP.bits();
    assert_eq!(woken(0, 0), vec![]);
    assert_eq!(woken(pollhup, pollhup), vec![]);
    assert_eq!(
        woken(pollin | pollhup, 0),
        vec![WakeOp::ReadEvents, WakeOp::DispatchPending]
    );
    assert_eq!(woken(0, pollin), vec![WakeOp::DrainPipe]);
    assert_eq!(
        woken(pollin, pollin),
        vec![WakeOp::ReadEvents, WakeOp::DispatchPending, WakeOp::DrainPipe]
    );
    assert_eq!(woken(-2, -1), vec![WakeOp::DrainPipe]);
}

#[test]
fn a_history_adds_up_to_its_last_frames() {
    let mut p = Pointer::new();
    let scroll = |value| PointerEvent::Axis { axis: Axis::VerticalScroll, value };
    let release = |button| PointerEvent::Button { button, state: ButtonState::Released };
    let history = vec![
        scroll(5),
        PointerEvent::Frame,
        motion(50, 60),
        scroll(6),
        PointerEvent::Leave,
        PointerEvent::Frame,
        release(1),
        PointerEvent::Enter { surface_x: 25 * 256, surface_y: 26 * 256 },
    ];
    for event in history {
        assert_eq!(p.handle(event), vec![]);
    }
    let pos = (5, 6);
    assert_eq!(
        p.handle(PointerEvent::Frame),
        vec![
            Cmd::MouseInput { pos, input: Input::Scroll { pos, x: 0, y: 11 } },
            Cmd::MouseInput { pos, input: Input::Click { pos, button: 1 } },
        ]
    );
    p.handle(scroll(-3));
    assert_eq!(
        p.handle(PointerEvent::Frame),
        vec![Cmd::MouseInput { pos, input: Input::Scroll { pos, x: 0, y: -3 } }]
    );
}

#[test]
fn a_mouse_command_is_consistent_if_it_has_one_place() {
    let click = |pos, at| Cmd::MouseInput { pos, input: Input::Click { pos: at, button: 1 } };
    assert!(click((1, 2), (1, 2)).is_consistent());
    assert!(!click((1, 2), (1, 3)).is_consistent());
    assert!(!click((1, 2), (0, 2)).is_consistent());
    let scroll = Cmd::MouseInput {
        pos: (4, 4),
        input: Input::Scroll { pos: (4, 5), x: 0, y: 1 },
    };
    assert!(!scroll.is_consistent());
    assert!(Cmd::Draw.is_consistent());
}
