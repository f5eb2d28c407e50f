//! Screen geometry: rectangles, the main display and the list of monitors.
use vstd::prelude::*;

verus! {

/// A rectangle of the virtual screen.
#[derive(Clone, Copy, Debug, PartialEq, Eq, Structural)]
pub struct VirtualScreenRect {
    pub left: i32,
    pub top: i32,
    pub width: i32,
    pub height: i32,
}

/// Whether `n` is an `i32`.
pub open spec fn fits_i32(n: int) -> bool {
    i32::MIN <= n <= i32::MAX
}

impl VirtualScreenRect {
    /// Whether `x` lies between the left edge, included, and the right edge, excluded.
    pub open spec fn spans_x(self, x: int) -> bool {
        self.left <= x < self.left + self.width
    }

    /// Whether `y` lies between the top edge, included, and the bottom edge, excluded.
    pub open spec fn spans_y(self, y: int) -> bool {
        self.top <= y < self.top + self.height
    }

    /// Whether the rectangle holds the point.
    pub open spec fn holds(self, x: int, y: int) -> bool {
        self.spans_x(x) && self.spans_y(y)
    }

    /// The first column right of the rectangle.
    pub open spec fn right_edge(self) -> int {
        self.left + self.width
    }

    /// The first row below the rectangle.
    pub open spec fn bottom_edge(self) -> int {
        self.top + self.height
    }

    /// The same rectangle, seen from the corner of `origin`.
    pub open spec fn seen_from(self, origin: VirtualScreenRect) -> VirtualScreenRect {
        VirtualScreenRect {
            left: (self.left - origin.left) as i32,
            top: (self.top - origin.top) as i32,
            width: self.width,
            height: self.height,
        }
    }

    /// The rectangle with the given corner and size.
    pub fn new(left: i32, top: i32, width: i32, height: i32) -> (r: VirtualScreenRect)
        ensures
            r.left == left,
            r.top == top,
            r.width == width,
            r.height == height,
    {
        VirtualScreenRect { left, top, width, height }
    }

    /// The first column right of the rectangle.
    pub fn right(self) -> (r: i32)
        requires
            fits_i32(self.left + self.width),
        ensures
            r == self.left + self.width,
            r == self.right_edge(),
    {
        self.left + self.width
    }

    /// The first row below the rectangle.
    pub fn bottom(self) -> (r: i32)
        requires
            fits_i32(self.top + self.height),
        ensures
            r == self.top + self.height,
            r == self.bottom_edge(),
    {
        self.top + self.height
    }

    /// Whether the rectangle holds the point. The right edge has to be a number only for a point
    /// that is not left of the rectangle, and the bottom edge only for one within its columns that
    /// is not above it.
    pub fn contains(self, x: i32, y: i32) -> (r: bool)
        requires
            x >= self.left ==> fits_i32(self.left + self.width),
            self.spans_x(x as int) && y >= self.top ==> fits_i32(self.top + self.height),
        ensures
            r == self.holds(x as int, y as int),
    {
        x >= self.left && x < self.right() && y >= self.top && y < self.bottom()
    }

    /// The same rectangle, seen from the corner of `origin`.
    pub fn offset_from(self, origin: VirtualScreenRect) -> (r: VirtualScreenRect)
        requires
            fits_i32(self.left - origin.left),
            fits_i32(self.top - origin.top),
        ensures
            r.left == self.left - origin.left,
            r.top == self.top - origin.top,
            r.width == self.width,
            r.height == self.height,
            r == self.seen_from(origin),
    {
        VirtualScreenRect::new(
            self.left - origin.left,
            self.top - origin.top,
            self.width,
            self.height,
        )
    }
}

/// What the lowest 32 bits of `n` write as a signed number.
pub open spec fn low_i32(n: usize) -> int {
    let low = n as int % 0x1_0000_0000;
    if low < 0x8000_0000 {
        low
    } else {
        low - 0x1_0000_0000
    }
}

/// The lowest 32 bits of `n` as a signed number.
fn as_i32(n: usize) -> (r: i32)
    ensures
        r == low_i32(n),
{
    let r: i32 = #[verifier::truncate]
    (n as i32);
    assert(r as int == low_i32(n)) by {
        let wide: u64 = n as u64;
        assert(wide % 0x1_0000_0000 < 0x8000_0000 ==> (wide as i32) == wide % 0x1_0000_0000)
            by (bit_vector);
        assert(wide % 0x1_0000_0000 >= 0x8000_0000 ==> (wide as i32) == wide % 0x1_0000_0000
            - 0x1_0000_0000) by (bit_vector);
    }
    r
}

/// The rectangle of a main display with the given size, or nothing where it has none.
pub open spec fn main_rect(pixels_wide: usize, pixels_high: usize) -> Option<VirtualScreenRect> {
    if low_i32(pixels_wide) > 0 && low_i32(pixels_high) > 0 {
        Some(
            VirtualScreenRect {
                left: 0,
                top: 0,
                width: low_i32(pixels_wide) as i32,
                height: low_i32(pixels_high) as i32,
            },
        )
    } else {
        None
    }
}

/// The rectangle of the main display, whose corner is the origin.
pub fn current_virtual_screen_rect(pixels_wide: usize, pixels_high: usize) -> (r: Option<
    VirtualScreenRect,
>)
    ensures
        r == main_rect(pixels_wide, pixels_high),
{
    let w: i32 = as_i32(pixels_wide);
    let h: i32 = as_i32(pixels_high);
    if w <= 0 || h <= 0 {
        return None;
    }
    Some(VirtualScreenRect::new(0, 0, w, h))
}

/// Whether a rectangle has an area.
pub open spec fn has_area(r: VirtualScreenRect) -> bool {
    r.width > 0 && r.height > 0
}

/// Whether `a` comes before `b`, or has the same corner: from top to bottom, and from left to right
/// in one row.
pub open spec fn not_after(a: VirtualScreenRect, b: VirtualScreenRect) -> bool {
    a.top < b.top || (a.top == b.top && a.left <= b.left)
}

/// Whether a rectangle has its corner at the given place.
pub open spec fn corner_at(top: i32, left: i32) -> spec_fn(VirtualScreenRect) -> bool {
    |r: VirtualScreenRect| r.top == top && r.left == left
}

/// Whether `rects` is ordered by corner.
pub open spec fn ordered(rects: Seq<VirtualScreenRect>) -> bool {
    forall|i: int, j: int| 0 <= i <= j < rects.len() ==> not_after(rects[i], rects[j])
}

/// Whether `rects` and `from` hold the same rectangles, those with one corner in the same order.
pub open spec fn rearranged(
    rects: Seq<VirtualScreenRect>,
    from: Seq<VirtualScreenRect>,
) -> bool {
    &&& rects.to_multiset() == from.to_multiset()
    &&& forall|top: i32, left: i32|
        rects.filter(#[trigger] corner_at(top, left)) == from.filter(corner_at(top, left))
}

/// The rectangles that have an area.
pub open spec fn with_area(bounds: Seq<VirtualScreenRect>) -> Seq<VirtualScreenRect> {
    bounds.filter(|r: VirtualScreenRect| has_area(r))
}

/// Inserting a rectangle behind all that are not after it and before all others.
proof fn lemma_insert_in_order(
    rects: Seq<VirtualScreenRect>,
    from: Seq<VirtualScreenRect>,
    at: int,
    r: VirtualScreenRect,
)
    requires
        ordered(rects),
        rearranged(rects, from),
        0 <= at <= rects.len(),
        forall|i: int| 0 <= i < at ==> not_after(#[trigger] rects[i], r),
        forall|i: int| at <= i < rects.len() ==> !not_after(#[trigger] rects[i], r),
    ensures
        ordered(rects.insert(at, r)),
        rearranged(rects.insert(at, r), from.push(r)),
{
    broadcast use vstd::seq_lib::group_to_multiset_ensures;

    let front = rects.take(at);
    let back = rects.skip(at);
    let new = rects.insert(at, r);
    assert(rects =~= front + back);
    assert(new =~= front.push(r) + back);
    assert forall|top: i32, left: i32|
        new.filter(#[trigger] corner_at(top, left)) == from.push(r).filter(
            corner_at(top, left),
        ) by {
        let here = corner_at(top, left);
        Seq::filter_distributes_over_add(front, back, here);
        Seq::filter_distributes_over_add(front.push(r), back, here);
        front.lemma_filter_push(r, here);
        from.lemma_filter_push(r, here);
        assert(rects.filter(here) == from.filter(here));
        if here(r) {
            assert forall|i: int| 0 <= i < back.len() implies !here(#[trigger] back[i]) by {
                assert(!not_after(rects[at + i], r));
            }
            assert(back.all(|x: VirtualScreenRect| !here(x)));
            back.lemma_all_neg_filter_empty(here);
            assert(front.filter(here) + back.filter(here) =~= front.filter(here));
            assert(front.push(r).filter(here) + back.filter(here) =~= front.filter(here).push(r));
        }
    }
    assert forall|i: int, j: int| 0 <= i <= j < new.len() implies not_after(new[i], new[j]) by {
        let old_i = if i < at { i } else { i - 1 };
        let old_j = if j < at { j } else { j - 1 };
        if i != at && j != at {
            assert(not_after(rects[old_i], rects[old_j]));
        }
    }
}

/// The rectangles of `bounds` that have an area, ordered by corner.
fn sorted_rects(bounds: &Vec<VirtualScreenRect>) -> (r: Vec<VirtualScreenRect>)
    ensures
        ordered(r@),
        rearranged(r@, with_area(bounds@)),
{
    let mut out: Vec<VirtualScreenRect> = Vec::new();
    let mut i: usize = 0;
    let ghost area = |r: VirtualScreenRect| has_area(r);
    proof {
        assert(bounds@.take(0) =~= Seq::<VirtualScreenRect>::empty());
        bounds@.take(0).lemma_all_neg_filter_empty(area);
        assert(out@ =~= with_area(bounds@.take(0)));
    }
    while i < bounds.len()
        invariant
            i <= bounds.len(),
            ordered(out@),
            rearranged(out@, with_area(bounds@.take(i as int))),
            area == |r: VirtualScreenRect| has_area(r),
        decreases bounds.len() - i,
    {
        let rect: VirtualScreenRect = bounds[i];
        proof {
            bounds@.take(i as int).lemma_filter_push(rect, area);
            assert(bounds@.take(i as int).push(rect) =~= bounds@.take(i + 1));
        }
        if rect.width > 0 && rect.height > 0 {
            let mut at: usize = 0;
            while at < out.len() && (out[at].top < rect.top || (out[at].top == rect.top
                && out[at].left <= rect.left))
                invariant
                    at <= out.len(),
                    forall|j: int| 0 <= j < at ==> not_after(#[trigger] out@[j], rect),
                decreases out.len() - at,
            {
                at = at + 1;
            }
            proof {
                assert forall|j: int| at <= j < out.len() implies !not_after(
                    #[trigger] out@[j],
                    rect,
                ) by {
                    assert(not_after(out@[at as int], out@[j]));
                }
                lemma_insert_in_order(
                    out@,
                    with_area(bounds@.take(i as int)),
                    at as int,
                    rect,
                );
            }
            out.insert(at, rect);
        }
        i = i + 1;
    }
    assert(bounds@.take(i as int) =~= bounds@);
    out
}

/// Whether `reply` lists the monitors, given the reply of the system.
pub open spec fn lists_monitors(
    reply: Option<Seq<VirtualScreenRect>>,
    err: i32,
    bounds: Seq<VirtualScreenRect>,
    pixels_wide: usize,
    pixels_high: usize,
) -> bool {
    if err != 0 || with_area(bounds).len() == 0 {
        reply == match main_rect(pixels_wide, pixels_high) {
            Some(rect) => Some(seq![rect]),
            None => None,
        }
    } else {
        reply matches Some(rects) && ordered(rects) && rearranged(rects, with_area(bounds))
    }
}

/// A list of rectangles in the form that contracts speak of.
pub open spec fn rects_view(r: Option<Vec<VirtualScreenRect>>) -> Option<Seq<VirtualScreenRect>> {
    match r {
        Some(rects) => Some(rects@),
        None => None,
    }
}

/// The rectangles of the monitors, from the reply of the system: an error code and one rectangle
/// for each display. Displays without an area are left out; where none is left, or the system
/// reports an error, the main display stands for all.
pub fn current_monitor_rects(
    err: i32,
    bounds: &Vec<VirtualScreenRect>,
    pixels_wide: usize,
    pixels_high: usize,
) -> (r: Option<Vec<VirtualScreenRect>>)
    ensures
        if err != 0 || with_area(bounds@).len() == 0 {
            match main_rect(pixels_wide, pixels_high) {
                Some(rect) => r matches Some(rects) && rects@ == seq![rect],
                None => r is None,
            }
        } else {
            r matches Some(rects) && ordered(rects@) && rearranged(rects@, with_area(bounds@))
        },
        r matches Some(rects) ==> rects.len() > 0 && (forall|i: int|
            0 <= i < rects.len() ==> has_area(#[trigger] rects@[i])),
        lists_monitors(rects_view(r), err, bounds@, pixels_wide, pixels_high),
{
    if err == 0 {
        let rects: Vec<VirtualScreenRect> = sorted_rects(bounds);
        proof {
            broadcast use vstd::seq_lib::group_to_multiset_ensures;

            let from = with_area(bounds@);
            assert(rects@.len() == rects@.to_multiset().len() == from.to_multiset().len()
                == from.len());
            assert forall|i: int| 0 <= i < rects.len() implies has_area(#[trigger] rects@[i]) by {
                assert(rects@.contains(rects@[i]));
                assert(from.to_multiset().count(rects@[i]) > 0);
                let j = choose|j: int| 0 <= j < from.len() && from[j] == rects@[i];
                bounds@.lemma_filter_pred(|r: VirtualScreenRect| has_area(r), j);
            }
        }
        if rects.len() > 0 {
            return Some(rects);
        }
    }
    match current_virtual_screen_rect(pixels_wide, pixels_high) {
        Some(rect) => {
            let mut rects: Vec<VirtualScreenRect> = Vec::new();
            rects.push(rect);
            assert(rects@ =~= seq![rect]);
            Some(rects)
        },
        None => None,
    }
}

/// Moving a rectangle and a point by the same offset does not change whether the one holds the
/// other.
pub proof fn law_offset_keeps_holding(
    rect: VirtualScreenRect,
    moved: VirtualScreenRect,
    origin: VirtualScreenRect,
    x: int,
    y: int,
)
    requires
        moved.left == rect.left - origin.left,
        moved.top == rect.top - origin.top,
        moved.width == rect.width,
        moved.height == rect.height,
    ensures
        moved.holds(x - origin.left, y - origin.top) == rect.holds(x, y),
{
}

/// The monitors' order is the only one of its kind: two orderings of the same rectangles agree.
pub proof fn law_monitor_order_is_unique(
    a: Seq<VirtualScreenRect>,
    b: Seq<VirtualScreenRect>,
    from: Seq<VirtualScreenRect>,
)
    requires
        ordered(a),
        ordered(b),
        rearranged(a, from),
        rearranged(b, from),
    ensures
        a == b,
    decreases a.len(),
{
    broadcast use vstd::seq_lib::group_to_multiset_ensures;

    assert(a.len() == a.to_multiset().len() == b.to_multiset().len() == b.len());
    if a.len() > 0 {
        let x = a.last();
        let y = b.last();
        let n = a.len() as int;
        // Both last rectangles lie at the last corner.
        assert(b.contains(x)) by {
            assert(a.contains(x));
            assert(a.to_multiset().count(x) > 0);
        }
        assert(a.contains(y)) by {
            assert(b.contains(y));
            assert(b.to_multiset().count(y) > 0);
        }
        let i = choose|i: int| 0 <= i < n && a[i] == y;
        let j = choose|j: int| 0 <= j < n && b[j] == x;
        assert(not_after(a[i], a[n - 1]));
        assert(not_after(b[j], b[n - 1]));
        // Each is the last of those with that corner, and those come in the same order.
        let here = corner_at(x.top, x.left);
        let a0 = a.drop_last();
        let b0 = b.drop_last();
        assert(a0.push(x) =~= a);
        assert(b0.push(y) =~= b);
        a0.lemma_filter_push(x, here);
        b0.lemma_filter_push(y, here);
        assert(a.filter(here) == b.filter(here));
        assert(a.filter(here).last() == x);
        assert(b.filter(here).last() == y);
        assert(x == y);
        assert forall|top: i32, left: i32|
            a0.filter(#[trigger] corner_at(top, left)) == b0.filter(corner_at(top, left)) by {
            let at = corner_at(top, left);
            a0.lemma_filter_push(x, at);
            b0.lemma_filter_push(x, at);
            assert(a.filter(at) == b.filter(at));
            if at(x) {
                assert(a0.filter(at) =~= a.filter(at).drop_last());
                assert(b0.filter(at) =~= b.filter(at).drop_last());
            }
        }
        assert(a0.to_multiset() == b0.to_multiset()) by {
            assert(a.remove(n - 1) =~= a0);
            assert(b.remove(n - 1) =~= b0);
        }
        assert(ordered(a0)) by {
            assert(forall|k: int| 0 <= k < a0.len() ==> a0[k] == a[k]);
        }
        assert(ordered(b0)) by {
            assert(forall|k: int| 0 <= k < b0.len() ==> b0[k] == b[k]);
        }
        law_monitor_order_is_unique(a0, b0, b0);
    }
}

/// A rectangle holds the points that are less than its width right of its left edge and less than
/// its height below its top edge, and no others.
pub proof fn law_rect_holds_its_points(rect: VirtualScreenRect, x: int, y: int)
    ensures
        rect.holds(x, y) <==> 0 <= x - rect.left < rect.width && 0 <= y - rect.top < rect.height,
{
}

/// The edges bound the points that a rectangle with an area holds: it holds its corner and the point
/// just inside of its right and bottom edges, and nothing at these edges.
pub proof fn law_edges_bound_the_points(rect: VirtualScreenRect, x: int, y: int)
    requires
        rect.width > 0,
        rect.height > 0,
    ensures
        rect.holds(rect.left as int, rect.top as int),
        rect.holds(rect.right_edge() - 1, rect.bottom_edge() - 1),
        rect.holds(x, y) ==> x < rect.right_edge() && y < rect.bottom_edge(),
        rect.right_edge() - rect.left == rect.width,
        rect.bottom_edge() - rect.top == rect.height,
{
}

/// Cutting a rectangle in two, from top to bottom or from left to right, gives every point of it to
/// one of the parts and to one only.
pub proof fn law_parts_share_the_points(
    rect: VirtualScreenRect,
    first: VirtualScreenRect,
    second: VirtualScreenRect,
    x: int,
    y: int,
)
    requires
        first.left == rect.left && first.top == rect.top,
        0 <= first.width && 0 <= second.width && 0 <= first.height && 0 <= second.height,
        ({
            ||| first.height == rect.height == second.height && second.top == rect.top
                && second.left == rect.left + first.width && first.width + second.width == rect.width
            ||| first.width == rect.width == second.width && second.left == rect.left && second.top
                == rect.top + first.height && first.height + second.height == rect.height
        }),
    ensures
        rect.holds(x, y) <==> first.holds(x, y) != second.holds(x, y),
        !(first.holds(x, y) && second.holds(x, y)),
{
}

/// Seen from the corner of another rectangle, a rectangle keeps its size and holds the same points,
/// seen from there too.
pub proof fn law_seen_from_elsewhere(
    rect: VirtualScreenRect,
    origin: VirtualScreenRect,
    x: int,
    y: int,
)
    requires
        fits_i32(rect.left - origin.left),
        fits_i32(rect.top - origin.top),
    ensures
        rect.seen_from(origin).holds(x - origin.left, y - origin.top) == rect.holds(x, y),
        rect.seen_from(origin).width == rect.width,
        rect.seen_from(origin).height == rect.height,
        rect.seen_from(rect).left == 0 && rect.seen_from(rect).top == 0,
        rect.seen_from(origin).left + origin.left == rect.left,
        rect.seen_from(origin).top + origin.top == rect.top,
{
}

/// The main display has its corner at the origin and the size that the system reports, taken modulo
/// 2^32; a size that is not positive then is none.
pub proof fn law_main_display_has_the_reported_size(
    pixels_wide: usize,
    pixels_high: usize,
    w: i32,
    h: i32,
)
    requires
        (pixels_wide - w) % 0x1_0000_0000 == 0,
        (pixels_high - h) % 0x1_0000_0000 == 0,
    ensures
        main_rect(pixels_wide, pixels_high) is Some <==> w > 0 && h > 0,
        main_rect(pixels_wide, pixels_high) matches Some(rect) ==> rect.left == 0 && rect.top == 0
            && rect.width == w && rect.height == h,
{
}

/// A rectangle has an area if and only if it holds a point.
pub proof fn law_area_is_room_for_a_point(rect: VirtualScreenRect)
    ensures
        has_area(rect) <==> exists|x: int, y: int| #[trigger] rect.holds(x, y),
{
    if has_area(rect) {
        assert(rect.holds(rect.left as int, rect.top as int));
    }
}

/// How often a rectangle is left when those without an area are left out.
proof fn lemma_with_area_counts(bounds: Seq<VirtualScreenRect>, rect: VirtualScreenRect)
    ensures
        with_area(bounds).to_multiset().count(rect) == (if has_area(rect) {
            bounds.to_multiset().count(rect)
        } else {
            0
        }),
    decreases bounds.len(),
{
    broadcast use vstd::seq_lib::group_to_multiset_ensures;

    let area = |r: VirtualScreenRect| has_area(r);
    if bounds.len() > 0 {
        let before = bounds.drop_last();
        let last = bounds.last();
        lemma_with_area_counts(before, rect);
        before.lemma_filter_push(last, area);
        assert(before.push(last) =~= bounds);
        assert(bounds.to_multiset() == before.to_multiset().insert(last));
        if has_area(last) {
            assert(with_area(bounds).to_multiset() == with_area(before).to_multiset().insert(last));
        }
    } else {
        bounds.lemma_all_neg_filter_empty(area);
        assert(with_area(bounds) =~= bounds);
        assert(bounds.to_multiset().len() == 0);
    }
}

/// The monitors are listed from top to bottom, and from left to right where their tops are level.
/// There is at least one, and each has a positive size.
pub proof fn law_monitors_are_listed_in_reading_order(
    rects: Seq<VirtualScreenRect>,
    err: i32,
    bounds: Seq<VirtualScreenRect>,
    pixels_wide: usize,
    pixels_high: usize,
)
    requires
        lists_monitors(Some(rects), err, bounds, pixels_wide, pixels_high),
    ensures
        rects.len() > 0,
        forall|i: int, j: int|
            0 <= i < j < rects.len() ==> {
                ||| (#[trigger] rects[i]).top < (#[trigger] rects[j]).top
                ||| rects[i].top == rects[j].top && rects[i].left <= rects[j].left
            },
        forall|i: int|
            0 <= i < rects.len() ==> (#[trigger] rects[i]).width > 0 && rects[i].height > 0,
{
    broadcast use vstd::seq_lib::group_to_multiset_ensures;

    let from = with_area(bounds);
    if err == 0 && from.len() > 0 {
        assert(rects.len() == rects.to_multiset().len() == from.to_multiset().len() == from.len());
        assert forall|i: int, j: int| 0 <= i < j < rects.len() implies {
            ||| (#[trigger] rects[i]).top < (#[trigger] rects[j]).top
            ||| rects[i].top == rects[j].top && rects[i].left <= rects[j].left
        } by {
            assert(not_after(rects[i], rects[j]));
        }
        assert forall|i: int| 0 <= i < rects.len() implies (#[trigger] rects[i]).width > 0
            && rects[i].height > 0 by {
            assert(rects.contains(rects[i]));
            assert(rects.to_multiset().count(rects[i]) > 0);
            lemma_with_area_counts(bounds, rects[i]);
        }
    }
}

/// Where the system reports no error, every display of a positive size is listed as often as it is
/// reported, those with the same corner in the order in which they are reported; no other is, if
/// there is one.
pub proof fn law_every_display_is_listed(
    reply: Option<Seq<VirtualScreenRect>>,
    bounds: Seq<VirtualScreenRect>,
    pixels_wide: usize,
    pixels_high: usize,
    shown: int,
    rect: VirtualScreenRect,
)
    requires
        lists_monitors(reply, 0, bounds, pixels_wide, pixels_high),
        0 <= shown < bounds.len(),
        bounds[shown].width > 0 && bounds[shown].height > 0,
    ensures
        reply matches Some(rects) && rects.to_multiset().count(rect) == (if rect.width > 0
            && rect.height > 0 {
            bounds.to_multiset().count(rect)
        } else {
            0
        }),
        reply matches Some(rects) && rects.filter(
            |r: VirtualScreenRect| r.top == rect.top && r.left == rect.left,
        ) == bounds.filter(|r: VirtualScreenRect| r.width > 0 && r.height > 0).filter(
            |r: VirtualScreenRect| r.top == rect.top && r.left == rect.left,
        ),
{
    broadcast use vstd::seq_lib::group_to_multiset_ensures;

    let one = bounds[shown];
    lemma_with_area_counts(bounds, one);
    lemma_with_area_counts(bounds, rect);
    assert(bounds.contains(one));
    assert(bounds.to_multiset().count(one) > 0);
    assert(with_area(bounds).contains(one));
    assert((|r: VirtualScreenRect| r.width > 0 && r.height > 0) =~= (|r: VirtualScreenRect|
        has_area(r)));
    assert((|r: VirtualScreenRect| r.top == rect.top && r.left == rect.left) =~= corner_at(
        rect.top,
        rect.left,
    ));
}

/// Where the system reports an error, or no display of a positive size, the main display is the only
/// one listed; without one there is no list.
pub proof fn law_main_display_stands_in(
    reply: Option<Seq<VirtualScreenRect>>,
    err: i32,
    bounds: Seq<VirtualScreenRect>,
    pixels_wide: usize,
    pixels_high: usize,
)
    requires
        lists_monitors(reply, err, bounds, pixels_wide, pixels_high),
        err != 0 || forall|i: int|
            0 <= i < bounds.len() ==> (#[trigger] bounds[i]).width <= 0 || bounds[i].height <= 0,
    ensures
        reply is Some <==> main_rect(pixels_wide, pixels_high) is Some,
        reply matches Some(rects) ==> rects == seq![main_rect(pixels_wide, pixels_high)->0],
{
    if err == 0 {
        let area = |r: VirtualScreenRect| has_area(r);
        assert(bounds.all(|r: VirtualScreenRect| !area(r)));
        bounds.lemma_all_neg_filter_empty(area);
    }
}

} // verus!
