use vstd::prelude::*;
use crate::cmd::{all_consistent, cmd_views, Cmd, CmdView};
use crate::geometry::MARGIN;
use crate::input::{Input, InputView};

verus! {

/// How many fixed-point units the compositor counts to a pixel.
pub const FIXED_ONE: i32 = 256;

#[derive(Clone, Copy, Debug, PartialEq, Eq, Structural)]
pub enum Axis {
    VerticalScroll,
    HorizontalScroll,
}

#[derive(Clone, Copy, Debug, PartialEq, Eq, Structural)]
pub enum ButtonState {
    Released,
    Pressed,
}

/// What the pointer reports. Positions and distances are the compositor's
/// fixed-point numbers, in 256ths of a pixel.
#[derive(Clone, Copy, Debug, PartialEq, Eq, Structural)]
pub enum PointerEvent {
    Enter { surface_x: i32, surface_y: i32 },
    Leave,
    Motion { surface_x: i32, surface_y: i32 },
    Axis { axis: Axis, value: i32 },
    Button { button: u32, state: ButtonState },
    Frame,
    Other,
}

/// What was reported of the pointer and has not been passed on.
#[derive(Clone, Copy, Debug, PartialEq, Eq)]
pub struct Pointer {
    /// The pixel that the pointer is on, counted from the window's corner.
    pub pos: (u32, u32),
    pub vert_scroll: i64,
    pub horiz_scroll: i64,
    /// The button that was last let go.
    pub btn: u32,
    /// Whether a button was let go.
    pub btn_clicked: bool,
}

/// The pixel that a fixed-point coordinate falls on. What lies left of or
/// above the window falls on its edge.
pub open spec fn pixel(fixed: i32) -> u32 {
    if fixed < 0 {
        0
    } else {
        (fixed as int / FIXED_ONE as int) as u32
    }
}

/// `a + b`, kept within the range of an `i64`.
pub open spec fn saturated(a: i64, b: i32) -> i64 {
    if a + b > i64::MAX {
        i64::MAX
    } else if a + b < i64::MIN {
        i64::MIN
    } else {
        (a + b) as i64
    }
}

impl Pointer {
    /// A pointer of which nothing is known yet.
    pub open spec fn initial() -> Pointer {
        Pointer { pos: (0, 0), vert_scroll: 0, horiz_scroll: 0, btn: 0, btn_clicked: false }
    }

    /// Whether the pointer has left the margin at the left and the top.
    pub open spec fn inside(self) -> bool {
        self.pos.0 >= MARGIN && self.pos.1 >= MARGIN
    }

    /// The pointer's pixel, counted from the corner inside the margin.
    pub open spec fn content_pos(self) -> (u32, u32) {
        ((self.pos.0 - MARGIN) as u32, (self.pos.1 - MARGIN) as u32)
    }

    pub open spec fn scrolled(self) -> bool {
        self.vert_scroll != 0 || self.horiz_scroll != 0
    }

    /// The scrolling that waits to be passed on, as a command.
    pub open spec fn scroll_command(self) -> CmdView {
        CmdView::MouseInput {
            pos: self.content_pos(),
            input: InputView::Scroll {
                pos: self.content_pos(),
                x: self.horiz_scroll,
                y: self.vert_scroll,
            },
        }
    }

    /// The click that waits to be passed on, as a command.
    pub open spec fn click_command(self) -> CmdView {
        CmdView::MouseInput {
            pos: self.content_pos(),
            input: InputView::Click { pos: self.content_pos(), button: self.btn },
        }
    }

    /// The state after `event`. A frame outside the margin's inner corner
    /// leaves what waits where it is.
    pub open spec fn after(self, event: PointerEvent) -> Pointer {
        match event {
            PointerEvent::Enter { surface_x, surface_y } => Pointer {
                pos: (pixel(surface_x), pixel(surface_y)),
                ..self
            },
            PointerEvent::Leave => Pointer { pos: (0, 0), ..self },
            PointerEvent::Motion { surface_x, surface_y } => Pointer {
                pos: (pixel(surface_x), pixel(surface_y)),
                ..self
            },
            PointerEvent::Axis { axis: Axis::VerticalScroll, value } => Pointer {
                vert_scroll: saturated(self.vert_scroll, value),
                ..self
            },
            PointerEvent::Button { button, state: ButtonState::Released } => Pointer {
                btn: button,
                btn_clicked: true,
                ..self
            },
            PointerEvent::Frame => if self.inside() {
                Pointer { vert_scroll: 0, horiz_scroll: 0, btn_clicked: false, ..self }
            } else {
                self
            },
            _ => self,
        }
    }

    /// The commands that `event` gives rise to, in their order. Only a frame
    /// inside the margin passes anything on: the scrolling first, then the
    /// click.
    pub open spec fn commands(self, event: PointerEvent) -> Seq<CmdView> {
        if event is Frame && self.inside() {
            (if self.scrolled() {
                seq![self.scroll_command()]
            } else {
                Seq::empty()
            }) + (if self.btn_clicked {
                seq![self.click_command()]
            } else {
                Seq::empty()
            })
        } else {
            Seq::empty()
        }
    }

    /// A pointer of which nothing is known yet.
    pub fn new() -> (r: Pointer)
        ensures
            r == Pointer::initial(),
    {
        Pointer { pos: (0, 0), vert_scroll: 0, horiz_scroll: 0, btn: 0, btn_clicked: false }
    }

    /// Takes in `event` and gives back the commands to put into the queue.
    pub fn handle(&mut self, event: PointerEvent) -> (cmds: Vec<Cmd>)
        ensures
            *final(self) == old(self).after(event),
            cmd_views(cmds@) == old(self).commands(event),
    {
        let mut cmds: Vec<Cmd> = Vec::new();
        match event {
            PointerEvent::Enter { surface_x, surface_y } => {
                self.pos = (to_pixel(surface_x), to_pixel(surface_y));
            },
            PointerEvent::Leave => {
                self.pos = (0, 0);
            },
            PointerEvent::Motion { surface_x, surface_y } => {
                self.pos = (to_pixel(surface_x), to_pixel(surface_y));
            },
            PointerEvent::Axis { axis, value } => {
                if axis == Axis::VerticalScroll {
                    self.vert_scroll = saturating_sum(self.vert_scroll, value);
                }
            },
            PointerEvent::Button { button, state } => {
                if state == ButtonState::Released {
                    self.btn = button;
                    self.btn_clicked = true;
                }
            },
            PointerEvent::Frame => {
                if self.pos.0 < MARGIN || self.pos.1 < MARGIN {
                    return cmds;
                }
                let pos = (self.pos.0 - MARGIN, self.pos.1 - MARGIN);
                if self.vert_scroll != 0 || self.horiz_scroll != 0 {
                    cmds.push(
                        Cmd::MouseInput {
                            pos,
                            input: Input::Scroll {
                                pos,
                                x: self.horiz_scroll,
                                y: self.vert_scroll,
                            },
                        },
                    );
                    self.vert_scroll = 0;
                    self.horiz_scroll = 0;
                }
                if self.btn_clicked {
                    cmds.push(
                        Cmd::MouseInput { pos, input: Input::Click { pos, button: self.btn } },
                    );
                    self.btn_clicked = false;
                }
            },
            PointerEvent::Other => {},
        }
        cmds
    }
}

fn to_pixel(fixed: i32) -> (r: u32)
    ensures
        r == pixel(fixed),
{
    if fixed < 0 {
        0
    } else {
        (fixed as u32) / (FIXED_ONE as u32)
    }
}

fn saturating_sum(a: i64, b: i32) -> (r: i64)
    ensures
        r == saturated(a, b),
{
    let sum: i128 = a as i128 + b as i128;
    if sum > i64::MAX as i128 {
        i64::MAX
    } else if sum < i64::MIN as i128 {
        i64::MIN
    } else {
        sum as i64
    }
}

/// Every command that the pointer gives rise to is consistent.
pub proof fn law_pointer_commands_are_consistent(pointer: Pointer, event: PointerEvent)
    ensures
        all_consistent(pointer.commands(event)),
{
}

/// What was passed on is not passed on again: of two frames without anything
/// between them the second gives rise to nothing.
pub proof fn law_frame_passes_on_once(pointer: Pointer)
    ensures
        pointer.after(PointerEvent::Frame).commands(PointerEvent::Frame) == Seq::<
            CmdView,
        >::empty(),
{
}

/// A frame on the margin loses nothing: what waits is passed on by the next
/// frame inside, at the place that the pointer has then.
pub proof fn law_margin_keeps_what_waits(pointer: Pointer, surface_x: i32, surface_y: i32)
    requires
        !pointer.inside(),
    ensures
        ({
            let moved = PointerEvent::Motion { surface_x, surface_y };
            let later = pointer.after(PointerEvent::Frame).after(moved);
            &&& pointer.commands(PointerEvent::Frame) == Seq::<CmdView>::empty()
            &&& later.vert_scroll == pointer.vert_scroll
            &&& later.horiz_scroll == pointer.horiz_scroll
            &&& later.btn == pointer.btn
            &&& later.btn_clicked == pointer.btn_clicked
            &&& later.inside() && pointer.btn_clicked ==> later.commands(
                PointerEvent::Frame,
            ).last() == later.click_command()
            &&& later.inside() && pointer.scrolled() ==> later.commands(
                PointerEvent::Frame,
            ).first() == later.scroll_command()
        }),
{
}

/// Nothing but a frame gives rise to commands.
pub proof fn law_only_frames_pass_on(pointer: Pointer, event: PointerEvent)
    requires
        !(event is Frame),
    ensures
        pointer.commands(event) == Seq::<CmdView>::empty(),
{
}

/// No event scrolls sideways.
pub proof fn law_never_scrolls_sideways(pointer: Pointer, event: PointerEvent)
    requires
        pointer.horiz_scroll == 0,
    ensures
        pointer.after(event).horiz_scroll == 0,
{
}

/// The state after `history`, all that a pointer ever reported.
pub open spec fn state_after(history: Seq<PointerEvent>) -> Pointer
    decreases history.len(),
{
    if history.len() == 0 {
        Pointer::initial()
    } else {
        state_after(history.drop_last()).after(history.last())
    }
}

/// Where `event` puts the pointer, if it says that.
pub open spec fn place(event: PointerEvent) -> Option<(u32, u32)> {
    match event {
        PointerEvent::Enter { surface_x, surface_y } => Some((pixel(surface_x), pixel(surface_y))),
        PointerEvent::Motion { surface_x, surface_y } => Some(
            (pixel(surface_x), pixel(surface_y)),
        ),
        PointerEvent::Leave => Some((0, 0)),
        _ => None,
    }
}

/// How far `event` scrolls down.
pub open spec fn scroll_distance(event: PointerEvent) -> int {
    match event {
        PointerEvent::Axis { axis: Axis::VerticalScroll, value } => value as int,
        _ => 0,
    }
}

/// The button that `event` says was let go.
pub open spec fn released(event: PointerEvent) -> Option<u32> {
    match event {
        PointerEvent::Button { button, state: ButtonState::Released } => Some(button),
        _ => None,
    }
}

/// The place that the latest event of `history` with a place says; the corner
/// if there is none.
pub open spec fn latest_place(history: Seq<PointerEvent>) -> (u32, u32)
    decreases history.len(),
{
    if history.len() == 0 {
        (0, 0)
    } else {
        match place(history.last()) {
            Some(pos) => pos,
            None => latest_place(history.drop_last()),
        }
    }
}

/// The button that was let go last; 0 if none ever was.
pub open spec fn latest_button(history: Seq<PointerEvent>) -> u32
    decreases history.len(),
{
    if history.len() == 0 {
        0
    } else {
        match released(history.last()) {
            Some(button) => button,
            None => latest_button(history.drop_last()),
        }
    }
}

/// Whether the event at `i` is a frame with the pointer inside the margin, so
/// that it passes on what waits.
pub open spec fn passes_on(history: Seq<PointerEvent>, i: int) -> bool {
    let pos = latest_place(history.take(i));
    history[i] is Frame && pos.0 >= MARGIN && pos.1 >= MARGIN
}

/// Where the part of `history` begins that comes after the last frame that
/// passed something on.
pub open spec fn waiting_from(history: Seq<PointerEvent>) -> int
    decreases history.len(),
{
    if history.len() == 0 {
        0
    } else if passes_on(history, history.len() - 1) {
        history.len() as int
    } else {
        waiting_from(history.drop_last())
    }
}

/// How far all of `events` together scroll down.
pub open spec fn total_scroll(events: Seq<PointerEvent>) -> int
    decreases events.len(),
{
    if events.len() == 0 {
        0
    } else {
        total_scroll(events.drop_last()) + scroll_distance(events.last())
    }
}

/// How far was scrolled since the last frame that passed something on.
pub open spec fn waiting_scroll(history: Seq<PointerEvent>) -> int {
    total_scroll(history.skip(waiting_from(history)))
}

/// Whether a button was let go since the last frame that passed something on.
pub open spec fn click_waits(history: Seq<PointerEvent>) -> bool {
    exists|i: int|
        waiting_from(history) <= i < history.len() && released(#[trigger] history[i]) is Some
}

proof fn lemma_total_scroll_is_small(events: Seq<PointerEvent>)
    ensures
        -0x8000_0000 * events.len() <= total_scroll(events) <= 0x8000_0000 * events.len(),
    decreases events.len(),
{
    if events.len() > 0 {
        lemma_total_scroll_is_small(events.drop_last());
    }
}

/// What waits begins right after the last frame inside the margin: that frame
/// is the last to pass anything on.
pub proof fn law_waiting_follows_last_frame(history: Seq<PointerEvent>)
    ensures
        0 <= waiting_from(history) <= history.len(),
        forall|i: int|
            waiting_from(history) <= i < history.len() ==> !(#[trigger] passes_on(history, i)),
        waiting_from(history) > 0 ==> passes_on(history, waiting_from(history) - 1),
    decreases history.len(),
{
    if history.len() > 0 {
        let rest = history.drop_last();
        law_waiting_follows_last_frame(rest);
        assert(history.take(history.len() - 1) == rest);
        assert forall|i: int| 0 <= i < rest.len() implies passes_on(history, i) == passes_on(
            rest,
            i,
        ) by {
            assert(history.take(i) == rest.take(i));
        }
        if !passes_on(history, history.len() - 1) {
            assert forall|i: int| waiting_from(history) <= i < history.len() implies !(
            #[trigger] passes_on(history, i)) by {
                if i < rest.len() {
                    assert(!passes_on(rest, i));
                }
            }
            if waiting_from(rest) > 0 {
                assert(passes_on(rest, waiting_from(rest) - 1));
            }
        }
    }
}

/// Whether the scrolling that waits could be counted in an `i64` at every
/// moment of `history`.
pub open spec fn scroll_in_range(history: Seq<PointerEvent>) -> bool {
    forall|k: int|
        0 <= k <= history.len() ==> i64::MIN <= waiting_scroll(#[trigger] history.take(k))
            <= i64::MAX
}

/// In up to 2^31 events no scrolling gets out of range.
pub proof fn law_short_histories_are_in_range(history: Seq<PointerEvent>)
    requires
        history.len() <= 0x8000_0000,
    ensures
        scroll_in_range(history),
{
    assert forall|k: int| 0 <= k <= history.len() implies i64::MIN <= waiting_scroll(
        #[trigger] history.take(k),
    ) <= i64::MAX by {
        law_waiting_follows_last_frame(history.take(k));
        lemma_total_scroll_is_small(history.take(k).skip(waiting_from(history.take(k))));
    }
}

/// Whatever a pointer reported: it is where the latest event says, the
/// scrolling that waits is the sum since the last frame that passed it on, a
/// click waits exactly if a button was let go since then, and it is of the
/// button that was let go last. Nothing scrolls sideways.
pub proof fn law_state_follows_history(history: Seq<PointerEvent>)
    requires
        scroll_in_range(history),
    ensures
        state_after(history) == (Pointer {
            pos: latest_place(history),
            vert_scroll: waiting_scroll(history) as i64,
            horiz_scroll: 0,
            btn: latest_button(history),
            btn_clicked: click_waits(history),
        }),
    decreases history.len(),
{
    law_waiting_follows_last_frame(history);
    let since = history.skip(waiting_from(history));
    assert(history.take(history.len() as int) == history);
    if history.len() > 0 {
        let rest = history.drop_last();
        let event = history.last();
        assert forall|k: int| 0 <= k <= rest.len() implies i64::MIN <= waiting_scroll(
            #[trigger] rest.take(k),
        ) <= i64::MAX by {
            assert(rest.take(k) == history.take(k));
        }
        law_state_follows_history(rest);
        law_waiting_follows_last_frame(rest);
        assert(history.take(history.len() - 1) == rest);
        assert(rest.take(rest.len() as int) == rest);
        if passes_on(history, history.len() - 1) {
            assert(since.len() == 0);
            assert(!click_waits(history));
        } else {
            assert(since.drop_last() == rest.skip(waiting_from(rest)));
            assert(since.last() == event);
            assert(waiting_scroll(history) == waiting_scroll(rest) + scroll_distance(event));
            if click_waits(rest) {
                let i = choose|i: int|
                    waiting_from(rest) <= i < rest.len() && released(#[trigger] rest[i]) is Some;
                assert(history[i] == rest[i]);
                assert(click_waits(history));
            }
            if released(event) is Some {
                assert(history[history.len() - 1] == event);
                assert(click_waits(history));
            }
            if click_waits(history) && released(event) is None {
                let i = choose|i: int|
                    waiting_from(history) <= i < history.len() && released(
                        #[trigger] history[i],
                    ) is Some;
                assert(rest[i] == history[i]);
                assert(click_waits(rest));
            }
        }
    }
}

/// What a pointer passes on after `history`. A frame passes on nothing on the
/// margin. Inside it, it passes on the scrolling since the last such frame
/// unless that cancels out, and then a click with the last button if one was
/// let go since. Nothing else passes anything on.
pub proof fn law_commands_follow_history(history: Seq<PointerEvent>, event: PointerEvent)
    requires
        scroll_in_range(history),
    ensures
        ({
            let at = latest_place(history);
            let pos = ((at.0 - MARGIN) as u32, (at.1 - MARGIN) as u32);
            let scroll = CmdView::MouseInput {
                pos,
                input: InputView::Scroll { pos, x: 0, y: waiting_scroll(history) as i64 },
            };
            let click = CmdView::MouseInput {
                pos,
                input: InputView::Click { pos, button: latest_button(history) },
            };
            state_after(history).commands(event) == if !(event is Frame) || at.0 < MARGIN || at.1
                < MARGIN {
                Seq::<CmdView>::empty()
            } else {
                (if waiting_scroll(history) != 0 {
                    seq![scroll]
                } else {
                    Seq::empty()
                }) + (if click_waits(history) {
                    seq![click]
                } else {
                    Seq::empty()
                })
            }
        }),
{
    law_state_follows_history(history);
    assert(history.take(history.len() as int) == history);
}

/// A coordinate falls on the pixel that it is less than a pixel right of, or
/// below; one left of or above the window falls on the first.
pub proof fn law_pixel_holds_its_coordinate(fixed: i32)
    ensures
        fixed >= 0 ==> 256 * pixel(fixed) <= fixed < 256 * pixel(fixed) + 256,
        fixed < 0 ==> pixel(fixed) == 0,
{
}

/// A pointer that comes in or moves is on the pixel that its coordinates fall
/// on. Nothing that waits is lost or passed on by that.
pub proof fn law_pointer_moves(pointer: Pointer, surface_x: i32, surface_y: i32)
    ensures
        ({
            let enter = PointerEvent::Enter { surface_x, surface_y };
            let motion = PointerEvent::Motion { surface_x, surface_y };
            let moved = pointer.after(motion);
            &&& surface_x >= 0 ==> 256 * moved.pos.0 <= surface_x < 256 * moved.pos.0 + 256
            &&& surface_y >= 0 ==> 256 * moved.pos.1 <= surface_y < 256 * moved.pos.1 + 256
            &&& surface_x < 0 ==> moved.pos.0 == 0
            &&& surface_y < 0 ==> moved.pos.1 == 0
            &&& moved.vert_scroll == pointer.vert_scroll
            &&& moved.horiz_scroll == pointer.horiz_scroll
            &&& moved.btn == pointer.btn
            &&& moved.btn_clicked == pointer.btn_clicked
            &&& pointer.after(enter) == moved
            &&& pointer.commands(enter).len() == 0
            &&& pointer.commands(motion).len() == 0
        }),
{
}

/// A pointer that leaves is in the window's corner. Nothing that waits is lost
/// or passed on by that.
pub proof fn law_pointer_leaves(pointer: Pointer)
    ensures
        pointer.after(PointerEvent::Leave) == (Pointer { pos: (0u32, 0u32), ..pointer }),
        pointer.commands(PointerEvent::Leave).len() == 0,
{
}

/// Scrolling down adds up, as far as an `i64` can count it. Scrolling sideways
/// has no effect.
pub proof fn law_scrolling_adds_up(pointer: Pointer, value: i32)
    ensures
        ({
            let down = PointerEvent::Axis { axis: Axis::VerticalScroll, value };
            let sideways = PointerEvent::Axis { axis: Axis::HorizontalScroll, value };
            let sum = pointer.vert_scroll + value;
            let scrolled = pointer.after(down);
            &&& i64::MIN <= sum <= i64::MAX ==> scrolled.vert_scroll == sum
            &&& sum > i64::MAX ==> scrolled.vert_scroll == i64::MAX
            &&& sum < i64::MIN ==> scrolled.vert_scroll == i64::MIN
            &&& scrolled.pos == pointer.pos
            &&& scrolled.horiz_scroll == pointer.horiz_scroll
            &&& scrolled.btn == pointer.btn
            &&& scrolled.btn_clicked == pointer.btn_clicked
            &&& pointer.after(sideways) == pointer
            &&& pointer.commands(down).len() == 0
            &&& pointer.commands(sideways).len() == 0
        }),
{
}

/// A button that is let go waits as a click of that button, in place of one
/// that waited before. A button that goes down has no effect, and neither has
/// any other event.
pub proof fn law_letting_go_clicks(pointer: Pointer, button: u32)
    ensures
        ({
            let up = PointerEvent::Button { button, state: ButtonState::Released };
            let down = PointerEvent::Button { button, state: ButtonState::Pressed };
            &&& pointer.after(up) == (Pointer { btn: button, btn_clicked: true, ..pointer })
            &&& pointer.after(down) == pointer
            &&& pointer.after(PointerEvent::Other) == pointer
            &&& pointer.commands(up).len() == 0
            &&& pointer.commands(down).len() == 0
            &&& pointer.commands(PointerEvent::Other).len() == 0
        }),
{
}

/// A frame passes on what waits if the pointer is at least twenty pixels from
/// the left and from the top, else it has no effect. A scroll in either
/// direction is passed on first, then a click; both at the place counted from
/// twenty pixels inside the window. Nothing waits then, and the pointer stays
/// where it is.
pub proof fn law_frame_passes_on_what_waits(pointer: Pointer)
    ensures
        ({
            let cmds = pointer.commands(PointerEvent::Frame);
            let later = pointer.after(PointerEvent::Frame);
            let scrolls = pointer.vert_scroll != 0 || pointer.horiz_scroll != 0;
            if pointer.pos.0 < 20 || pointer.pos.1 < 20 {
                cmds.len() == 0 && later == pointer
            } else {
                &&& cmds.len() == (if scrolls {
                    1int
                } else {
                    0
                }) + (if pointer.btn_clicked {
                    1int
                } else {
                    0
                })
                &&& scrolls ==> {
                    &&& cmds[0] matches CmdView::MouseInput {
                        pos,
                        input: InputView::Scroll { pos: p, x, y },
                    }
                    &&& pos == p
                    &&& pos.0 + 20 == pointer.pos.0
                    &&& pos.1 + 20 == pointer.pos.1
                    &&& x == pointer.horiz_scroll
                    &&& y == pointer.vert_scroll
                }
                &&& pointer.btn_clicked ==> {
                    &&& cmds.last() matches CmdView::MouseInput {
                        pos,
                        input: InputView::Click { pos: p, button },
                    }
                    &&& pos == p
                    &&& pos.0 + 20 == pointer.pos.0
                    &&& pos.1 + 20 == pointer.pos.1
                    &&& button == pointer.btn
                }
                &&& later.pos == pointer.pos
                &&& later.btn == pointer.btn
                &&& later.vert_scroll == 0
                &&& later.horiz_scroll == 0
                &&& !later.btn_clicked
            }
        }),
{
}

/// Nothing waits in a pointer that has not reported anything.
pub proof fn law_pointer_begins_in_the_corner()
    ensures
        ({
            let p = Pointer::initial();
            &&& p.pos == (0u32, 0u32)
            &&& p.vert_scroll == 0
            &&& p.horiz_scroll == 0
            &&& p.btn == 0
            &&& !p.btn_clicked
        }),
{
}

} // verus!
