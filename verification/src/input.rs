use vstd::prelude::*;

verus! {

/// What a user did. Scroll distances count 256ths of a pixel, the unit of the
/// compositor's fixed-point numbers.
#[derive(Debug, PartialEq, Eq)]
pub enum Input {
    Scroll { pos: (u32, u32), x: i64, y: i64 },
    Click { pos: (u32, u32), button: u32 },
    Keypress { key: u32, interpreted: Option<String> },
}

/// An [`Input`] with its text as a sequence of characters.
pub enum InputView {
    Scroll { pos: (u32, u32), x: i64, y: i64 },
    Click { pos: (u32, u32), button: u32 },
    Keypress { key: u32, interpreted: Option<Seq<char>> },
}

/// The characters of `text`, if there is one.
pub open spec fn text_view(text: Option<String>) -> Option<Seq<char>> {
    match text {
        Some(s) => Some(s@),
        None => None,
    }
}

impl View for Input {
    type V = InputView;

    open spec fn view(&self) -> InputView {
        match *self {
            Input::Scroll { pos, x, y } => InputView::Scroll { pos, x, y },
            Input::Click { pos, button } => InputView::Click { pos, button },
            Input::Keypress { key, interpreted } => InputView::Keypress {
                key,
                interpreted: text_view(interpreted),
            },
        }
    }
}

impl InputView {
    /// Where it happened, if it has a place.
    pub open spec fn place(self) -> Option<(u32, u32)> {
        match self {
            InputView::Scroll { pos, .. } => Some(pos),
            InputView::Click { pos, .. } => Some(pos),
            InputView::Keypress { .. } => None,
        }
    }

    /// Whether its place, if it has one, can be counted from `origin`.
    pub open spec fn reaches(self, origin: (u32, u32)) -> bool {
        self.place() matches Some(pos) ==> origin.0 <= pos.0 && origin.1 <= pos.1
    }

    /// The same input with its place counted from `origin`.
    pub open spec fn relative_to(self, origin: (u32, u32)) -> InputView {
        match self {
            InputView::Scroll { pos, x, y } => InputView::Scroll {
                pos: ((pos.0 - origin.0) as u32, (pos.1 - origin.1) as u32),
                x,
                y,
            },
            InputView::Click { pos, button } => InputView::Click {
                pos: ((pos.0 - origin.0) as u32, (pos.1 - origin.1) as u32),
                button,
            },
            InputView::Keypress { .. } => self,
        }
    }
}

impl Clone for Input {
    fn clone(&self) -> (r: Self)
        ensures
            r@ == self@,
    {
        match self {
            Input::Scroll { pos, x, y } => Input::Scroll { pos: *pos, x: *x, y: *y },
            Input::Click { pos, button } => Input::Click { pos: *pos, button: *button },
            Input::Keypress { key, interpreted } => {
                let interpreted = match interpreted {
                    Some(s) => Some(s.clone()),
                    None => None,
                };
                Input::Keypress { key: *key, interpreted }
            },
        }
    }
}

impl Input {
    /// The same input with its place counted from `origin`, a panel's upper
    /// left corner. A key press has no place and stays as it is.
    pub fn offset(self, origin: (u32, u32)) -> (r: Input)
        requires
            self@.reaches(origin),
        ensures
            r@ == self@.relative_to(origin),
    {
        match self {
            Input::Scroll { pos, x, y } => Input::Scroll {
                pos: (pos.0 - origin.0, pos.1 - origin.1),
                x,
                y,
            },
            Input::Click { pos, button } => Input::Click {
                pos: (pos.0 - origin.0, pos.1 - origin.1),
                button,
            },
            Input::Keypress { key, interpreted } => Input::Keypress { key, interpreted },
        }
    }
}

/// The view of an input loses nothing.
pub proof fn law_view_keeps_the_input(input: Input)
    ensures
        match input {
            Input::Scroll { pos, x, y } => input@ == (InputView::Scroll { pos, x, y }),
            Input::Click { pos, button } => input@ == (InputView::Click { pos, button }),
            Input::Keypress { key, interpreted: Some(text) } => input@ == (InputView::Keypress {
                key,
                interpreted: Some(text@),
            }),
            Input::Keypress { key, interpreted: None } => input@ == (InputView::Keypress {
                key,
                interpreted: None,
            }),
        },
{
}

/// The place of an input can be counted from `origin` if it lies neither left
/// of it nor above it. An input that has no place can be counted from anywhere.
pub proof fn law_reach(input: InputView, origin: (u32, u32))
    ensures
        match input {
            InputView::Scroll { pos, .. } => {
                &&& input.place() == Some(pos)
                &&& input.reaches(origin) <==> origin.0 <= pos.0 && origin.1 <= pos.1
            },
            InputView::Click { pos, .. } => {
                &&& input.place() == Some(pos)
                &&& input.reaches(origin) <==> origin.0 <= pos.0 && origin.1 <= pos.1
            },
            InputView::Keypress { .. } => input.place() is None && input.reaches(origin),
        },
{
}

/// Counting an input from `origin` changes its place and nothing else: a
/// scroll stays a scroll by the same distance, a click stays one of the same
/// button, and going back by `origin` leads to the place where it happened. A
/// key press stays as it is.
pub proof fn law_offset_changes_only_the_place(input: InputView, origin: (u32, u32))
    requires
        input.reaches(origin),
    ensures
        match input {
            InputView::Scroll { pos, x, y } => {
                &&& input.relative_to(origin) matches InputView::Scroll { pos: p, x: x2, y: y2 }
                &&& p.0 + origin.0 == pos.0
                &&& p.1 + origin.1 == pos.1
                &&& x2 == x
                &&& y2 == y
            },
            InputView::Click { pos, button } => {
                &&& input.relative_to(origin) matches InputView::Click { pos: p, button: button2 }
                &&& p.0 + origin.0 == pos.0
                &&& p.1 + origin.1 == pos.1
                &&& button2 == button
            },
            InputView::Keypress { .. } => input.relative_to(origin) == input,
        },
{
}

} // verus!
