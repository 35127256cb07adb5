use vstd::prelude::*;

verus! {

/// The panels that a dashboard can show.
#[derive(Clone, Copy, Debug, PartialEq, Eq, Structural)]
pub enum ModuleKind {
    Clock,
    Calendar,
    Launcher,
    Battery,
    Backlight,
    Sound,
}

/// A panel and the place that it was given, relative to the upper left corner
/// of the area inside the window's margin.
#[derive(Clone, Copy, Debug, PartialEq, Eq)]
pub struct Module {
    pub kind: ModuleKind,
    pub bounds: (u32, u32, u32, u32),
}

impl Module {
    /// Whether the pixel `pos` belongs to this panel.
    pub open spec fn intersects(self, pos: (u32, u32)) -> bool {
        crate::geometry::covers(self.bounds, pos)
    }

    pub fn new(kind: ModuleKind, bounds: (u32, u32, u32, u32)) -> (r: Module)
        ensures
            r == (Module { kind, bounds }),
    {
        Module { kind, bounds }
    }

    pub fn get_bounds(&self) -> (r: (u32, u32, u32, u32))
        ensures
            r == self.bounds,
    {
        self.bounds
    }

    /// Whether the pixel `pos` belongs to this panel. A panel owns its left
    /// and upper edge, and ends just before its right and lower one.
    pub fn intersect(&self, pos: (u32, u32)) -> (r: bool)
        ensures
            r == self.intersects(pos),
    {
        let b = self.bounds;
        pos.0 >= b.0 && pos.1 >= b.1 && pos.0 - b.0 < b.2 && pos.1 - b.1 < b.3
    }
}

/// A pixel belongs to a panel exactly if it lies less than the panel's width
/// right of its left edge and less than the panel's height below its upper
/// edge.
pub proof fn law_panel_ends_where_its_size_says(m: Module, pos: (u32, u32))
    ensures
        m.intersects(pos) <==> {
            &&& 0 <= pos.0 - m.bounds.0 < m.bounds.2
            &&& 0 <= pos.1 - m.bounds.1 < m.bounds.3
        },
{
}

/// Every step right by less than the width and down by less than the height
/// leads from a panel's corner to a pixel of that panel.
pub proof fn law_panel_has_no_holes(m: Module, dx: u32, dy: u32)
    requires
        dx < m.bounds.2,
        dy < m.bounds.3,
        m.bounds.0 + dx <= u32::MAX,
        m.bounds.1 + dy <= u32::MAX,
    ensures
        m.intersects(((m.bounds.0 + dx) as u32, (m.bounds.1 + dy) as u32)),
{
}

} // verus!
