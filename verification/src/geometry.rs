use vstd::prelude::*;

verus! {

/// Left edge, top edge, width and height, in pixels.
pub type Bounds = (u32, u32, u32, u32);

/// How many pixels a window leaves free along each of its edges.
pub const MARGIN: u32 = 20;

/// How many bytes a pixel takes.
pub const PIXEL_BYTES: u32 = 4;

/// The column just right of `b`.
pub open spec fn right(b: Bounds) -> int {
    b.0 + b.2
}

/// The row just below `b`.
pub open spec fn bottom(b: Bounds) -> int {
    b.1 + b.3
}

/// Whether the pixel `pos` belongs to `b`.
pub open spec fn covers(b: Bounds, pos: (u32, u32)) -> bool {
    &&& b.0 <= pos.0 < right(b)
    &&& b.1 <= pos.1 < bottom(b)
}

/// Whether no pixel belongs to both `a` and `b`.
pub open spec fn disjoint(a: Bounds, b: Bounds) -> bool {
    forall|pos: (u32, u32)| !(#[trigger] covers(a, pos) && covers(b, pos))
}

/// Whether `b` lies inside an area of the size `size`.
pub open spec fn fits(b: Bounds, size: (u32, u32)) -> bool {
    &&& right(b) <= size.0
    &&& bottom(b) <= size.1
}

/// The part `inner` of `outer`, counted from where `outer` is counted from.
/// There is none if `inner` sticks out of `outer`.
pub open spec fn part_of(outer: Bounds, inner: Bounds) -> Option<Bounds> {
    if fits(inner, (outer.2, outer.3)) {
        Some(((outer.0 + inner.0) as u32, (outer.1 + inner.1) as u32, inner.2, inner.3))
    } else {
        None
    }
}

/// The part `inner` of `outer`, or nothing if `inner` sticks out.
pub fn subdimensions(outer: Bounds, inner: Bounds) -> (r: Option<Bounds>)
    requires
        right(outer) <= u32::MAX,
        bottom(outer) <= u32::MAX,
    ensures
        r == part_of(outer, inner),
{
    if inner.0 as u64 + inner.2 as u64 <= outer.2 as u64 && inner.1 as u64 + inner.3 as u64
        <= outer.3 as u64 {
        Some((outer.0 + inner.0, outer.1 + inner.1, inner.2, inner.3))
    } else {
        None
    }
}

/// The bytes that the pixels of a window of the size `size` take.
pub open spec fn byte_count(size: (u32, u32)) -> int {
    PIXEL_BYTES * size.0 * size.1
}

/// Whether the bytes of a row and those of the whole window can be counted in
/// a `u32`.
pub open spec fn countable(size: (u32, u32)) -> bool {
    &&& PIXEL_BYTES * size.0 <= u32::MAX
    &&& byte_count(size) <= u32::MAX
}

/// Whether a window of the size `size` has room for its margin, and its bytes
/// can be counted.
pub open spec fn drawable(size: (u32, u32)) -> bool {
    &&& size.0 >= 2 * MARGIN
    &&& size.1 >= 2 * MARGIN
    &&& countable(size)
}

/// What a window of the size `size` holds inside its margin.
pub open spec fn content(size: (u32, u32)) -> Bounds {
    (MARGIN, MARGIN, (size.0 - 2 * MARGIN) as u32, (size.1 - 2 * MARGIN) as u32)
}

/// The bytes that the pixels of a window take.
pub fn pool_bytes(size: (u32, u32)) -> (r: usize)
    requires
        countable(size),
    ensures
        r == byte_count(size),
{
    assert((PIXEL_BYTES * size.0) * size.1 >= 0) by (nonlinear_arith);
    (PIXEL_BYTES * size.0 * size.1) as usize
}

/// Whether the bytes of a window can be counted.
pub fn is_countable(size: (u32, u32)) -> (r: bool)
    ensures
        r == countable(size),
{
    let row: u64 = PIXEL_BYTES as u64 * size.0 as u64;
    if row > u32::MAX as u64 {
        return false;
    }
    assert(0 <= row * size.1 <= u32::MAX * u32::MAX) by (nonlinear_arith)
        requires
            0 <= row <= u32::MAX,
            0 <= size.1 <= u32::MAX,
    ;
    row * size.1 as u64 <= u32::MAX as u64
}

/// Whether there can be drawn in a window of the size `size`.
pub fn is_drawable(size: (u32, u32)) -> (r: bool)
    ensures
        r == drawable(size),
{
    size.0 >= 2 * MARGIN && size.1 >= 2 * MARGIN && is_countable(size)
}

/// What a window holds inside its margin.
pub fn content_area(size: (u32, u32)) -> (r: Bounds)
    requires
        drawable(size),
    ensures
        r == content(size),
{
    (MARGIN, MARGIN, size.0 - 2 * MARGIN, size.1 - 2 * MARGIN)
}

/// The content of a window that can be drawn is a part of that window.
pub proof fn law_content_is_part_of_window(size: (u32, u32))
    requires
        drawable(size),
    ensures
        part_of((0, 0, size.0, size.1), content(size)) == Some(content(size)),
{
}

/// The width, the height and the bytes of a row of a window that can be drawn
/// are all representable as `i32`, as the compositor wants them.
pub proof fn lemma_drawable_is_signed(size: (u32, u32))
    requires
        drawable(size),
    ensures
        size.0 <= i32::MAX,
        size.1 <= i32::MAX,
        PIXEL_BYTES * size.0 <= i32::MAX,
{
    let w = size.0 as int;
    let h = size.1 as int;
    assert(160 * w <= (4 * w) * h) by (nonlinear_arith)
        requires
            w >= 40,
            h >= 40,
    ;
    assert(160 * h <= (4 * w) * h) by (nonlinear_arith)
        requires
            w >= 40,
            h >= 40,
    ;
}

/// Whatever is part of an area covers only pixels of that area.
pub proof fn law_part_stays_inside(outer: Bounds, inner: Bounds, pos: (u32, u32))
    requires
        right(outer) <= u32::MAX,
        bottom(outer) <= u32::MAX,
        part_of(outer, inner) matches Some(part) && covers(part, pos),
    ensures
        covers(outer, pos),
{
}

/// `inner` is a part of `outer` exactly if it ends within the width and the
/// height of `outer`. The part then has the size of
/// `inner`, and lies as far from the corner of `outer` as `inner` says.
pub proof fn law_part_is_moved_not_resized(outer: Bounds, inner: Bounds)
    requires
        outer.0 + outer.2 <= u32::MAX,
        outer.1 + outer.3 <= u32::MAX,
    ensures
        part_of(outer, inner) is Some <==> inner.0 + inner.2 <= outer.2 && inner.1 + inner.3
            <= outer.3,
        part_of(outer, inner) matches Some(part) ==> {
            &&& part.0 - outer.0 == inner.0
            &&& part.1 - outer.1 == inner.1
            &&& part.2 == inner.2
            &&& part.3 == inner.3
        },
{
}

/// A window takes four bytes a pixel, and there can be drawn in it if it has
/// twenty pixels for each edge and its bytes, those of a row as well as all of
/// them, can be counted in a `u32`. Its content lacks just these edges.
pub proof fn law_window_has_margins(size: (u32, u32))
    ensures
        byte_count(size) == 4 * size.0 * size.1,
        countable(size) <==> 4 * size.0 <= u32::MAX && 4 * size.0 * size.1 <= u32::MAX,
        drawable(size) <==> size.0 >= 40 && size.1 >= 40 && 4 * size.0 * size.1 <= u32::MAX,
        drawable(size) ==> {
            let inside = content(size);
            &&& inside.0 == 20
            &&& inside.1 == 20
            &&& 20 + inside.2 + 20 == size.0
            &&& 20 + inside.3 + 20 == size.1
        },
{
    let w = size.0 as int;
    let h = size.1 as int;
    if h >= 40 {
        assert(4 * w <= (4 * w) * h) by (nonlinear_arith)
            requires
                w >= 0,
                h >= 40,
        ;
    }
}

} // verus!
