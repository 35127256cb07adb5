use vstd::prelude::*;
use crate::geometry::{bottom, content, disjoint, drawable, fits, right, MARGIN};
use crate::module::{Module, ModuleKind};

verus! {

/// Which of the panels that can be missing are at hand.
#[derive(Clone, Copy, Debug, PartialEq, Eq, Structural)]
pub struct Available {
    pub launcher: bool,
    pub battery: bool,
    pub backlight: bool,
    pub sound: bool,
}

/// The height of a panel of one row.
pub const ROW: u32 = 32;

/// The height that a row takes if it is there.
pub open spec fn row_height(there: bool) -> u32 {
    if there {
        ROW
    } else {
        0
    }
}

/// One panel if it is there, else none.
pub open spec fn optional(
    there: bool,
    kind: ModuleKind,
    bounds: (u32, u32, u32, u32),
) -> Seq<Module> {
    if there {
        seq![Module { kind, bounds }]
    } else {
        Seq::empty()
    }
}

/// The panels and their places: the clock and, below it, the calendar and the
/// launcher; right of the clock, one below the other without a gap, whichever
/// of battery, backlight and sound there are.
pub open spec fn layout_of(a: Available) -> Seq<Module> {
    seq![
        Module { kind: ModuleKind::Clock, bounds: (0, 0, 536, 320) },
        Module { kind: ModuleKind::Calendar, bounds: (0, 368, 1232, 344) },
    ] + optional(a.launcher, ModuleKind::Launcher, (0, 728, 1232, ROW)) + optional(
        a.battery,
        ModuleKind::Battery,
        (640, 0, 592, ROW),
    ) + optional(a.backlight, ModuleKind::Backlight, (640, row_height(a.battery), 592, ROW))
        + optional(
        a.sound,
        ModuleKind::Sound,
        (640, (row_height(a.battery) + row_height(a.backlight)) as u32, 592, ROW),
    )
}

/// Places the panels that are at hand.
pub fn layout(a: Available) -> (modules: Vec<Module>)
    ensures
        modules@ == layout_of(a),
{
    let mut modules: Vec<Module> = Vec::new();
    modules.push(Module::new(ModuleKind::Clock, (0, 0, 536, 320)));
    modules.push(Module::new(ModuleKind::Calendar, (0, 368, 1232, 344)));
    if a.launcher {
        modules.push(Module::new(ModuleKind::Launcher, (0, 728, 1232, ROW)));
    }
    let mut vert_off: u32 = 0;
    if a.battery {
        modules.push(Module::new(ModuleKind::Battery, (640, vert_off, 592, ROW)));
        vert_off += ROW;
    }
    if a.backlight {
        modules.push(Module::new(ModuleKind::Backlight, (640, vert_off, 592, ROW)));
        vert_off += ROW;
    }
    if a.sound {
        modules.push(Module::new(ModuleKind::Sound, (640, vert_off, 592, ROW)));
    }
    modules
}

/// The rightmost column just right of one of `modules`; 0 for none.
pub open spec fn max_right(modules: Seq<Module>) -> int
    decreases modules.len(),
{
    if modules.len() == 0 {
        0
    } else {
        vstd::math::max(max_right(modules.drop_last()), right(modules.last().bounds))
    }
}

/// The lowest row just below one of `modules`; 0 for none.
pub open spec fn max_bottom(modules: Seq<Module>) -> int
    decreases modules.len(),
{
    if modules.len() == 0 {
        0
    } else {
        vstd::math::max(max_bottom(modules.drop_last()), bottom(modules.last().bounds))
    }
}

/// Whether a window for `modules` has a size that a `u32` can hold.
pub open spec fn sizeable(modules: Seq<Module>) -> bool {
    &&& max_right(modules) + 2 * MARGIN <= u32::MAX
    &&& max_bottom(modules) + 2 * MARGIN <= u32::MAX
}

/// The size of a window that just holds `modules` and a margin on each side.
pub open spec fn window_size_of(modules: Seq<Module>) -> (u32, u32) {
    ((max_right(modules) + 2 * MARGIN) as u32, (max_bottom(modules) + 2 * MARGIN) as u32)
}

/// The size of the window for `modules`.
pub fn window_size(modules: &Vec<Module>) -> (r: (u32, u32))
    requires
        sizeable(modules@),
    ensures
        r == window_size_of(modules@),
{
    let mut dimensions: (u32, u32) = (0, 0);
    let mut i: usize = 0;
    while i < modules.len()
        invariant
            i <= modules@.len(),
            sizeable(modules@),
            dimensions.0 == max_right(modules@.take(i as int)),
            dimensions.1 == max_bottom(modules@.take(i as int)),
        decreases modules@.len() - i,
    {
        proof {
            law_extent_bounds(modules@, i as int);
            assert(modules@.take(i + 1).drop_last() == modules@.take(i as int));
            assert(modules@.take(i + 1).last() == modules@[i as int]);
        }
        let b = modules[i].get_bounds();
        let x: u32 = b.0 + b.2;
        let y: u32 = b.1 + b.3;
        dimensions = (
            if x > dimensions.0 {
                x
            } else {
                dimensions.0
            },
            if y > dimensions.1 {
                y
            } else {
                dimensions.1
            },
        );
        i += 1;
    }
    assert(modules@.take(i as int) == modules@);
    (dimensions.0 + 2 * MARGIN, dimensions.1 + 2 * MARGIN)
}

/// No panel reaches beyond the extent of all panels.
pub proof fn law_extent_bounds(modules: Seq<Module>, i: int)
    requires
        0 <= i < modules.len(),
    ensures
        right(modules[i].bounds) <= max_right(modules),
        bottom(modules[i].bounds) <= max_bottom(modules),
    decreases modules.len(),
{
    if i < modules.len() - 1 {
        law_extent_bounds(modules.drop_last(), i);
        assert(modules.drop_last()[i] == modules[i]);
    }
}

/// The extent is no larger than it has to be: some panel ends at its right
/// edge, and some panel at its lower edge.
pub proof fn law_extent_is_reached(modules: Seq<Module>)
    requires
        modules.len() > 0,
    ensures
        exists|i: int|
            0 <= i < modules.len() && right((#[trigger] modules[i]).bounds) == max_right(modules),
        exists|i: int|
            0 <= i < modules.len() && bottom((#[trigger] modules[i]).bounds) == max_bottom(
                modules,
            ),
    decreases modules.len(),
{
    let rest = modules.drop_last();
    assert(modules[modules.len() - 1] == modules.last());
    if rest.len() > 0 {
        law_extent_is_reached(rest);
        let i = choose|i: int|
            0 <= i < rest.len() && right((#[trigger] rest[i]).bounds) == max_right(rest);
        let j = choose|j: int|
            0 <= j < rest.len() && bottom((#[trigger] rest[j]).bounds) == max_bottom(rest);
        assert(modules[i] == rest[i]);
        assert(modules[j] == rest[j]);
    }
}

/// Every panel fits into the content of the window that was sized for it.
pub proof fn law_panels_fit_their_window(modules: Seq<Module>, i: int)
    requires
        sizeable(modules),
        0 <= i < modules.len(),
    ensures
        ({
            let area = content(window_size_of(modules));
            fits(modules[i].bounds, (area.2, area.3))
        }),
{
    law_extent_bounds(modules, i);
}

proof fn lemma_extent_of_sum(a: Seq<Module>, b: Seq<Module>)
    ensures
        max_right(a + b) == vstd::math::max(max_right(a), max_right(b)),
        max_bottom(a + b) == vstd::math::max(max_bottom(a), max_bottom(b)),
    decreases b.len(),
{
    lemma_extent_not_negative(a);
    if b.len() == 0 {
        assert(a + b == a);
    } else {
        lemma_extent_of_sum(a, b.drop_last());
        assert((a + b).drop_last() == a + b.drop_last());
        assert((a + b).last() == b.last());
    }
}

proof fn lemma_extent_not_negative(a: Seq<Module>)
    ensures
        max_right(a) >= 0,
        max_bottom(a) >= 0,
    decreases a.len(),
{
    if a.len() > 0 {
        lemma_extent_not_negative(a.drop_last());
    }
}

/// Whichever panels there are, the window is 1272 pixels wide; it is 800
/// pixels high with the launcher and 752 without; and there can be drawn in
/// it.
pub proof fn law_window_of_layout(a: Available)
    ensures
        sizeable(layout_of(a)),
        window_size_of(layout_of(a)) == (
            1272u32,
            if a.launcher {
                800u32
            } else {
                752u32
            },
        ),
        drawable(window_size_of(layout_of(a))),
{
    let fixed = seq![
        Module { kind: ModuleKind::Clock, bounds: (0, 0, 536, 320) },
        Module { kind: ModuleKind::Calendar, bounds: (0, 368, 1232, 344) },
    ];
    let launcher = optional(a.launcher, ModuleKind::Launcher, (0, 728, 1232, ROW));
    let battery = optional(a.battery, ModuleKind::Battery, (640, 0, 592, ROW));
    let backlight = optional(
        a.backlight,
        ModuleKind::Backlight,
        (640, row_height(a.battery), 592, ROW),
    );
    let sound = optional(
        a.sound,
        ModuleKind::Sound,
        (640, (row_height(a.battery) + row_height(a.backlight)) as u32, 592, ROW),
    );
    reveal_with_fuel(max_right, 3);
    reveal_with_fuel(max_bottom, 3);
    assert(fixed.drop_last().last() == fixed[0]);
    lemma_extent_of_sum(fixed, launcher);
    lemma_extent_of_sum(fixed + launcher, battery);
    lemma_extent_of_sum(fixed + launcher + battery, backlight);
    lemma_extent_of_sum(fixed + launcher + battery + backlight, sound);
}

/// No two panels share a pixel, whichever there are.
pub proof fn law_panels_do_not_overlap(a: Available, i: int, j: int)
    requires
        0 <= i < j < layout_of(a).len(),
    ensures
        disjoint(layout_of(a)[i].bounds, layout_of(a)[j].bounds),
{
}

/// No kind of panel occurs twice.
pub proof fn law_panels_are_distinct(a: Available, i: int, j: int)
    requires
        0 <= i < j < layout_of(a).len(),
    ensures
        layout_of(a)[i].kind != layout_of(a)[j].kind,
{
}

/// The clock and the calendar are always placed. Each of the other panels is
/// placed exactly if it is at hand, whatever the others are.
pub proof fn law_each_panel_has_its_own_flag(a: Available, kind: ModuleKind)
    ensures
        (exists|i: int| 0 <= i < layout_of(a).len() && (#[trigger] layout_of(a)[i]).kind == kind)
            <==> match kind {
            ModuleKind::Clock => true,
            ModuleKind::Calendar => true,
            ModuleKind::Launcher => a.launcher,
            ModuleKind::Battery => a.battery,
            ModuleKind::Backlight => a.backlight,
            ModuleKind::Sound => a.sound,
        },
        layout_of(a).len() == 2 + (if a.launcher {
            1int
        } else {
            0
        }) + (if a.battery {
            1int
        } else {
            0
        }) + (if a.backlight {
            1int
        } else {
            0
        }) + (if a.sound {
            1int
        } else {
            0
        }),
{
    let modules = layout_of(a);
    let launcher = if a.launcher {
        1int
    } else {
        0
    };
    let battery = if a.battery {
        1int
    } else {
        0
    };
    let backlight = if a.backlight {
        1int
    } else {
        0
    };
    match kind {
        ModuleKind::Clock => {
            assert(modules[0].kind == kind);
        },
        ModuleKind::Calendar => {
            assert(modules[1].kind == kind);
        },
        ModuleKind::Launcher => {
            assert(a.launcher ==> modules[2].kind == kind);
        },
        ModuleKind::Battery => {
            assert(a.battery ==> modules[2 + launcher].kind == kind);
        },
        ModuleKind::Backlight => {
            assert(a.backlight ==> modules[2 + launcher + battery].kind == kind);
        },
        ModuleKind::Sound => {
            assert(a.sound ==> modules[2 + launcher + battery + backlight].kind == kind);
        },
    }
}

/// Where each panel is placed. The panels of the right column are rows of 32
/// pixels; each begins below as many such rows as there are panels of the
/// column before it.
pub proof fn law_each_panel_has_its_place(a: Available, i: int)
    requires
        0 <= i < layout_of(a).len(),
    ensures
        ({
            let bounds = layout_of(a)[i].bounds;
            let above_backlight = if a.battery {
                1int
            } else {
                0
            };
            let above_sound = above_backlight + if a.backlight {
                1int
            } else {
                0
            };
            match layout_of(a)[i].kind {
                ModuleKind::Clock => bounds == (0u32, 0u32, 536u32, 320u32),
                ModuleKind::Calendar => bounds == (0u32, 368u32, 1232u32, 344u32),
                ModuleKind::Launcher => bounds == (0u32, 728u32, 1232u32, 32u32),
                ModuleKind::Battery => bounds == (640u32, 0u32, 592u32, 32u32),
                ModuleKind::Backlight => {
                    &&& bounds.0 == 640
                    &&& bounds.1 == 32 * above_backlight
                    &&& bounds.2 == 592
                    &&& bounds.3 == 32
                },
                ModuleKind::Sound => {
                    &&& bounds.0 == 640
                    &&& bounds.1 == 32 * above_sound
                    &&& bounds.2 == 592
                    &&& bounds.3 == 32
                },
            }
        }),
{
}

/// The panels are placed in one order, of which some may be missing: clock,
/// calendar, launcher, battery, backlight, sound.
pub proof fn law_panels_keep_their_order(a: Available, i: int, j: int)
    requires
        0 <= i < j < layout_of(a).len(),
    ensures
        ({
            let rank = |kind: ModuleKind|
                match kind {
                    ModuleKind::Clock => 0int,
                    ModuleKind::Calendar => 1,
                    ModuleKind::Launcher => 2,
                    ModuleKind::Battery => 3,
                    ModuleKind::Backlight => 4,
                    ModuleKind::Sound => 5,
                };
            rank(layout_of(a)[i].kind) < rank(layout_of(a)[j].kind)
        }),
{
}

/// A window can be sized for panels exactly if each of them and the margin on
/// both sides of it can be counted in a `u32`.
pub proof fn law_sizeable_if_each_panel_is(modules: Seq<Module>)
    ensures
        sizeable(modules) <==> forall|i: int|
            0 <= i < modules.len() ==> {
                let b = (#[trigger] modules[i]).bounds;
                b.0 + b.2 + 40 <= u32::MAX && b.1 + b.3 + 40 <= u32::MAX
            },
{
    if sizeable(modules) {
        assert forall|i: int| 0 <= i < modules.len() implies {
            let b = (#[trigger] modules[i]).bounds;
            b.0 + b.2 + 40 <= u32::MAX && b.1 + b.3 + 40 <= u32::MAX
        } by {
            law_extent_bounds(modules, i);
        }
    } else if modules.len() > 0 {
        law_extent_is_reached(modules);
    }
}

/// The window leaves room for every panel and a margin of twenty pixels on
/// both sides of it, in width and in height, and has no row or column to
/// spare. Without panels it is just the margin.
pub proof fn law_window_just_holds_its_panels(modules: Seq<Module>)
    requires
        sizeable(modules),
    ensures
        forall|i: int|
            0 <= i < modules.len() ==> {
                let b = (#[trigger] modules[i]).bounds;
                &&& 20 + b.0 + b.2 + 20 <= window_size_of(modules).0
                &&& 20 + b.1 + b.3 + 20 <= window_size_of(modules).1
            },
        modules.len() > 0 ==> exists|i: int|
            0 <= i < modules.len() && 20 + (#[trigger] modules[i]).bounds.0 + modules[i].bounds.2
                + 20 == window_size_of(modules).0,
        modules.len() > 0 ==> exists|i: int|
            0 <= i < modules.len() && 20 + (#[trigger] modules[i]).bounds.1 + modules[i].bounds.3
                + 20 == window_size_of(modules).1,
        modules.len() == 0 ==> window_size_of(modules) == (40u32, 40u32),
{
    assert forall|i: int| 0 <= i < modules.len() implies {
        let b = (#[trigger] modules[i]).bounds;
        &&& 20 + b.0 + b.2 + 20 <= window_size_of(modules).0
        &&& 20 + b.1 + b.3 + 20 <= window_size_of(modules).1
    } by {
        law_extent_bounds(modules, i);
    }
    lemma_extent_not_negative(modules);
    if modules.len() > 0 {
        law_extent_is_reached(modules);
        let i = choose|i: int|
            0 <= i < modules.len() && right((#[trigger] modules[i]).bounds) == max_right(modules);
        let j = choose|j: int|
            0 <= j < modules.len() && bottom((#[trigger] modules[j]).bounds) == max_bottom(
                modules,
            );
        assert(20 + modules[i].bounds.0 + modules[i].bounds.2 + 20 == window_size_of(modules).0);
        assert(20 + modules[j].bounds.1 + modules[j].bounds.3 + 20 == window_size_of(modules).1);
    }
}

} // verus!
