use vstd::prelude::*;
use smithay_client_toolkit::keyboard::keysyms;
use crate::cmd::{Cmd, CmdView};
use crate::input::{text_view, Input, InputView};

verus! {

/// Whether a key went down or up.
#[derive(Clone, Copy, Debug, PartialEq, Eq, Structural)]
pub enum KeyState {
    Released,
    Pressed,
}

/// What the keyboard reports.
#[derive(Debug)]
pub enum KbEvent {
    Key { keysym: u32, utf8: Option<String>, state: KeyState },
    Other,
}

/// The symbol of the escape key.
pub open spec fn escape_keysym() -> u32 {
    0xff1b
}

/// Reads `smithay_client_toolkit::keyboard::keysyms::XKB_KEY_Escape`. The
/// contract claims the number that this constant holds.
#[verifier::external_body]
fn xkb_key_escape() -> (r: u32)
    ensures
        r == escape_keysym(),
{
    keysyms::XKB_KEY_Escape
}

/// What a keyboard event asks for: the escape key ends the program when it
/// goes down, any other key going down is an input for the panels, and
/// nothing else matters.
pub open spec fn key_command(event: KbEvent) -> Option<CmdView> {
    match event {
        KbEvent::Key { keysym, utf8, state: KeyState::Pressed } => if keysym == escape_keysym() {
            Some(CmdView::Exit)
        } else {
            Some(
                CmdView::KeyboardInput {
                    input: InputView::Keypress { key: keysym, interpreted: text_view(utf8) },
                },
            )
        },
        _ => None,
    }
}

/// The command that a keyboard event puts into the queue, if any.
pub fn keyboard_event(event: KbEvent) -> (r: Option<Cmd>)
    ensures
        match r {
            Some(cmd) => key_command(event) == Some(cmd@),
            None => key_command(event) is None,
        },
{
    match event {
        KbEvent::Key { keysym, utf8, state } => match state {
            KeyState::Pressed => {
                if keysym == xkb_key_escape() {
                    Some(Cmd::Exit)
                } else {
                    Some(
                        Cmd::KeyboardInput {
                            input: Input::Keypress { key: keysym, interpreted: utf8 },
                        },
                    )
                }
            },
            KeyState::Released => None,
        },
        KbEvent::Other => None,
    }
}

/// Every key but escape that goes down is an input for the panels, with its
/// symbol and with its text, whether it has a text or none.
pub proof fn law_pressed_keys_are_input(keysym: u32, utf8: Option<String>)
    requires
        keysym != 0xff1b,
    ensures
        ({
            let event = KbEvent::Key { keysym, utf8, state: KeyState::Pressed };
            &&& key_command(event) matches Some(CmdView::KeyboardInput {
                input: InputView::Keypress { key, interpreted },
            })
            &&& key == keysym
            &&& interpreted is Some <==> utf8 is Some
            &&& utf8 matches Some(text) ==> interpreted == Some(text@)
        }),
{
}

/// The escape key ends the program when it goes down, whatever text it has.
pub proof fn law_escape_exits(utf8: Option<String>)
    ensures
        key_command(KbEvent::Key { keysym: 0xff1b, utf8, state: KeyState::Pressed }) == Some(
            CmdView::Exit,
        ),
{
}

/// No key does anything when it goes up, and nothing else of the keyboard does
/// anything at all.
pub proof fn law_only_pressing_counts(keysym: u32, utf8: Option<String>)
    ensures
        key_command(KbEvent::Key { keysym, utf8, state: KeyState::Released }) is None,
        key_command(KbEvent::Other) is None,
{
}

} // verus!
