//! The layout engine: from a tree of elements and the box of its root to one
//! box for every node that is laid out.
//!
//! A container first takes its padding off its own box; what remains is its
//! content box.  A stack gives every child the whole content box.  A row or a
//! column divides its main axis as [`crate::flow`] says, places the children
//! one after another, and sizes and aligns each one on the cross axis.  A
//! wrapping row or column starts a new line whenever a child would cross the
//! end of the content box.  Inside a container the layout alone decides where
//! a child lies; the position that a node carries counts only for the root,
//! which it moves within the box that the root is given.  A container that has
//! no children, or whose box has no width or no height, is not laid out, nor
//! is anything below it.  All positions are absolute: they are measured in the
//! coordinates in which the box of the root is given.
//!
//! A wrapping row or column is laid out in one pass, child by child.  When a
//! child is placed, neither the length that its line will leave over nor the
//! cross length that the line will have is known yet.  So a wrapping line is
//! packed at its head, every child lies at the head of its line with the cross
//! length it has without stretching, and no child gives way: what does not
//! fit goes to the next line instead of shrinking.

use vstd::prelude::*;
use crate::element::{Element, ElementId, ElementKind};
use crate::flow::{
    authored_cross, distribute, justify_shift, lemma_soft_base, lemma_sums_monotone,
    lemma_sums_step, line_of, Line, Span, DEFAULT_LENGTH,
};
use crate::geometry::{clamp_authored, clamp_i64, clamp_length, saturate, Geometry};
use crate::layout::{align_of, flow_of, AlignItems, Flow, JustifyContent, LayoutType};

verus! {

/// The box of one node.
#[derive(Clone, Copy, Debug, PartialEq, Eq, Structural)]
pub struct Placement {
    pub id: ElementId,
    pub geometry: Geometry,
}

/// What remains of a length once the padding is taken off both ends.
pub open spec fn padded_length(length: int, padding: int) -> int {
    if length >= 2 * padding {
        length - 2 * padding
    } else {
        0
    }
}

/// The content box of a container: its own box less the padding on every side.
pub open spec fn content_box(own: Geometry, padding: u32) -> Geometry {
    Geometry {
        x: clamp_i64(own.x + padding) as i64,
        y: clamp_i64(own.y + padding) as i64,
        width: padded_length(own.width as int, padding as int) as u32,
        height: padded_length(own.height as int, padding as int) as u32,
    }
}

/// The cross-axis alignment that holds for one child: its own, if it has
/// one, else that of its container.
pub open spec fn effective_align(e: Element, align: AlignItems) -> AlignItems {
    match e.self_alignment {
        Some(a) => align_of(a),
        None => align,
    }
}

/// The cross-axis length of a child: its own size, else the whole cross
/// length if it is stretched, else the default length.
pub open spec fn cross_length(e: Element, row: bool, align: AlignItems, cross: int) -> int {
    match authored_cross(e, row) {
        Some(v) => v,
        None => if align == AlignItems::Stretch {
            cross
        } else {
            DEFAULT_LENGTH as int
        },
    }
}

/// How far a child of the given cross length lies from the head of a cross
/// axis of length `cross`.  Negative where a child that is too long is
/// centred or aligned at the tail.
pub open spec fn cross_shift(align: AlignItems, cross: int, len: int) -> int {
    match align {
        AlignItems::Start => 0,
        AlignItems::Stretch => 0,
        AlignItems::End => cross - len,
        AlignItems::Center => (cross - len) / 2,
    }
}

/// The state of a wrapping line before one of its children is placed.
pub struct Cursor {
    /// Where the next child starts on the main axis, if it stays in the line.
    pub main: int,
    /// Where the current line starts on the cross axis.
    pub cross: int,
    /// The largest cross length of a child in the current line.
    pub extent: int,
}

/// A child of the given length does not fit behind the cursor and starts a
/// new line.  The first child of a line always stays.
pub open spec fn breaks(cursor: Cursor, len: int, length: int) -> bool {
    cursor.main > 0 && cursor.main + len > length
}

/// The cursor after a child of main length `len` and cross length `ext`.
pub open spec fn advance(cursor: Cursor, len: int, ext: int, length: int, gap: int) -> Cursor {
    if breaks(cursor, len, length) {
        Cursor { main: len + gap, cross: cursor.cross + cursor.extent + gap, extent: ext }
    } else {
        Cursor {
            main: cursor.main + len + gap,
            cross: cursor.cross,
            extent: if ext > cursor.extent {
                ext
            } else {
                cursor.extent
            },
        }
    }
}

/// The cursor of a wrapping line before child `upto`.  In a wrapping line
/// every child has the cross length it has without stretching.
pub open spec fn cursor_at(line: Line, upto: int) -> Cursor
    decreases upto,
{
    if upto <= 0 {
        Cursor { main: 0, cross: 0, extent: 0 }
    } else {
        advance(
            cursor_at(line, upto - 1),
            line.main_length(upto - 1),
            cross_length(line.children[upto - 1], line.row, AlignItems::Start, 0),
            line.length,
            line.gap,
        )
    }
}

/// Where a child lies inside the content box of its container, and how
/// large it is.
pub struct Slot {
    pub dx: int,
    pub dy: int,
    pub width: int,
    pub height: int,
}

/// A slot given by its main-axis and cross-axis parts.
pub open spec fn slot_of(row: bool, main: int, cross: int, len: int, cross_len: int) -> Slot {
    if row {
        Slot { dx: main, dy: cross, width: len, height: cross_len }
    } else {
        Slot { dx: cross, dy: main, width: cross_len, height: len }
    }
}

/// The slot of child `i` in a row or a column.
pub open spec fn line_slot(flow: Flow, line: Line, cross: int, i: int) -> Slot {
    let e = line.children[i];
    let len = line.main_length(i);
    if flow.wrap {
        let cursor = cursor_at(line, i);
        let cross_len = cross_length(e, line.row, AlignItems::Start, 0);
        if breaks(cursor, len, line.length) {
            slot_of(line.row, 0, cursor.cross + cursor.extent + line.gap, len, cross_len)
        } else {
            slot_of(line.row, cursor.main, cursor.cross, len, cross_len)
        }
    } else {
        let align = effective_align(e, flow.align);
        let cross_len = cross_length(e, line.row, align, cross);
        slot_of(
            line.row,
            line.start(i) + justify_shift(flow.justify, line.leftover(), line.n(), i),
            cross_shift(align, cross, cross_len),
            len,
            cross_len,
        )
    }
}

/// The slot of child `i` of a container with the given content box.
pub open spec fn slot(flow: Flow, cs: Seq<Element>, content: Geometry, i: int) -> Slot {
    match flow.kind {
        LayoutType::Stack => Slot {
            dx: 0,
            dy: 0,
            width: content.width as int,
            height: content.height as int,
        },
        LayoutType::Row => line_slot(
            flow,
            line_of(cs, true, content.width, flow.gap, flow.wrap),
            content.height as int,
            i,
        ),
        LayoutType::Column => line_slot(
            flow,
            line_of(cs, false, content.height, flow.gap, flow.wrap),
            content.width as int,
            i,
        ),
    }
}

/// The box of a child whose slot is known: the slot moved to the corner of
/// the content box.  The position that the author gave the child plays no
/// part: inside a container the layout alone decides where a child lies.
pub open spec fn settle(content: Geometry, s: Slot) -> Geometry {
    Geometry {
        x: clamp_i64(content.x + s.dx) as i64,
        y: clamp_i64(content.y + s.dy) as i64,
        width: s.width as u32,
        height: s.height as u32,
    }
}

/// The box of child `i` of a container with the box `own`.
pub open spec fn child_box(flow: Flow, cs: Seq<Element>, own: Geometry, i: int) -> Geometry {
    let content = content_box(own, flow.padding);
    settle(content, slot(flow, cs, content, i))
}

/// The boxes of all children of a container with the box `own`.
pub open spec fn child_boxes(flow: Flow, cs: Seq<Element>, own: Geometry) -> Seq<Geometry> {
    Seq::new(cs.len(), |i: int| child_box(flow, cs, own, i))
}

/// The box of the root: the box it is given, moved by its own position and
/// with its own size, where it has them.
pub open spec fn root_box(root: Element, given: Geometry) -> Geometry {
    Geometry {
        x: match root.position {
            Some(p) => clamp_i64(given.x + p.x) as i64,
            None => given.x,
        },
        y: match root.position {
            Some(p) => clamp_i64(given.y + p.y) as i64,
            None => given.y,
        },
        width: match root.size {
            Some(v) => clamp_length(v.x as int) as u32,
            None => given.width,
        },
        height: match root.size {
            Some(v) => clamp_length(v.y as int) as u32,
            None => given.height,
        },
    }
}

/// A box without width or without height has no room.
pub open spec fn has_room(own: Geometry) -> bool {
    own.width > 0 && own.height > 0
}

/// The boxes of a node and of everything below it, the node first, then its
/// children from first to last, each with what lies below it.  A container
/// that has no children, or whose box has no room, stands for nothing: neither
/// it nor anything below it gets a box.
pub open spec fn node_placements(e: Element, own: Geometry) -> Seq<Placement>
    decreases e,
{
    match e.kind {
        ElementKind::Container { children, layout } => if children@.len() > 0 && has_room(own) {
            seq![Placement { id: e.id, geometry: own }] + children_placements(
                children@,
                child_boxes(flow_of(layout), children@, own),
                0,
            )
        } else {
            Seq::empty()
        },
        _ => seq![Placement { id: e.id, geometry: own }],
    }
}

/// The boxes of the children from `from` on and of what lies below them.
pub open spec fn children_placements(cs: Seq<Element>, boxes: Seq<Geometry>, from: int) -> Seq<
    Placement,
>
    decreases cs, cs.len() - from,
{
    if 0 <= from < cs.len() {
        node_placements(cs[from], boxes[from]) + children_placements(cs, boxes, from + 1)
    } else {
        Seq::empty()
    }
}

/// The layout of a whole tree whose root is given the box `given`.
pub open spec fn layout_of(root: Element, given: Geometry) -> Seq<Placement> {
    node_placements(root, root_box(root, given))
}

/// The first box recorded for `id` at or after the index `from`, if there is one.
pub open spec fn geometry_from(placements: Seq<Placement>, id: ElementId, from: int) -> Option<
    Geometry,
>
    decreases placements.len() - from,
{
    if from < 0 || from >= placements.len() {
        None
    } else if placements[from].id == id {
        Some(placements[from].geometry)
    } else {
        geometry_from(placements, id, from + 1)
    }
}

/// The first box recorded for `id`, if there is one.
pub open spec fn geometry_of(placements: Seq<Placement>, id: ElementId) -> Option<Geometry> {
    geometry_from(placements, id, 0)
}

/// See [`geometry_of`].
pub fn find_geometry(placements: &Vec<Placement>, id: ElementId) -> (g: Option<Geometry>)
    ensures
        g == geometry_of(placements@, id),
{
    let mut i: usize = 0;
    while i < placements.len()
        invariant
            i <= placements.len(),
            geometry_of(placements@, id) == geometry_from(placements@, id, i as int),
        decreases placements.len() - i,
    {
        if placements[i].id.0 == id.0 {
            return Some(placements[i].geometry);
        }
        i += 1;
    }
    None
}

/// See [`content_box`].
pub fn content_of(own: Geometry, padding: u32) -> (content: Geometry)
    ensures
        content == content_box(own, padding),
{
    let twice: u64 = 2 * (padding as u64);
    Geometry {
        x: saturate(own.x as i128 + padding as i128),
        y: saturate(own.y as i128 + padding as i128),
        width: if own.width as u64 >= twice {
            (own.width as u64 - twice) as u32
        } else {
            0
        },
        height: if own.height as u64 >= twice {
            (own.height as u64 - twice) as u32
        } else {
            0
        },
    }
}

/// See [`effective_align`].
fn align_for(e: &Element, align: AlignItems) -> (a: AlignItems)
    ensures
        a == effective_align(*e, align),
{
    match e.self_alignment {
        Some(own) => own.align(),
        None => align,
    }
}

/// See [`cross_length`].
fn cross_length_of(e: &Element, row: bool, align: AlignItems, cross: u32) -> (len: u32)
    ensures
        len == cross_length(*e, row, align, cross as int),
{
    match e.size {
        Some(v) => clamp_authored(if row { v.y } else { v.x }),
        None => match align {
            AlignItems::Stretch => cross,
            _ => DEFAULT_LENGTH,
        },
    }
}

/// See [`cross_shift`].
fn cross_shift_of(align: AlignItems, cross: u32, len: u32) -> (shift: i64)
    ensures
        shift == cross_shift(align, cross as int, len as int),
{
    match align {
        AlignItems::Start => 0,
        AlignItems::Stretch => 0,
        AlignItems::End => cross as i64 - len as i64,
        AlignItems::Center => if cross >= len {
            ((cross - len) / 2) as i64
        } else {
            // Rounding a negative half down is rounding its magnitude up.
            let over: u64 = (len - cross) as u64;
            -(((over + 1) / 2) as i64)
        },
    }
}

/// See [`justify_shift`].
fn shift_of(justify: JustifyContent, leftover: u32, n: usize, i: usize) -> (shift: u128)
    requires
        i < n,
    ensures
        shift == justify_shift(justify, leftover as int, n as int, i as int),
        shift <= leftover,
{
    let rest: u128 = leftover as u128;
    let count: u128 = n as u128;
    let index: u128 = i as u128;
    match justify {
        JustifyContent::Start => 0,
        JustifyContent::End => rest,
        JustifyContent::Center => rest / 2,
        JustifyContent::SpaceBetween => if n >= 2 {
            proof {
                crate::flow::lemma_share_bounds(rest as int, index as int, index as int, count - 1);
            }
            assert(rest * index <= 0xffff_ffff * 0xffff_ffff_ffff_ffff) by (nonlinear_arith)
                requires
                    rest <= 0xffff_ffff,
                    index <= 0xffff_ffff_ffff_ffff,
            ;
            (rest * index) / (count - 1)
        } else {
            0
        },
        JustifyContent::SpaceAround => {
            proof {
                crate::flow::lemma_share_bounds(
                    rest as int,
                    2 * index + 1,
                    2 * index + 1,
                    2 * count,
                );
            }
            assert(rest * (2 * index + 1) <= 0xffff_ffff * (2 * 0xffff_ffff_ffff_ffff + 1))
                by (nonlinear_arith)
                requires
                    rest <= 0xffff_ffff,
                    index <= 0xffff_ffff_ffff_ffff,
            ;
            (rest * (2 * index + 1)) / (2 * count)
        },
        JustifyContent::SpaceEvenly => {
            proof {
                crate::flow::lemma_share_bounds(rest as int, index + 1, index + 1, count + 1);
            }
            assert(rest * (index + 1) <= 0xffff_ffff * (0xffff_ffff_ffff_ffff + 1))
                by (nonlinear_arith)
                requires
                    rest <= 0xffff_ffff,
                    index <= 0xffff_ffff_ffff_ffff,
            ;
            (rest * (index + 1)) / (count + 1)
        },
    }
}

/// See [`settle`].
fn settle_at(content: Geometry, dx: i128, dy: i128, width: u32, height: u32) -> (g: Geometry)
    requires
        -0x1_0000_0000_0000_0000_0000_0000_0000 < dx < 0x1_0000_0000_0000_0000_0000_0000_0000,
        -0x1_0000_0000_0000_0000_0000_0000_0000 < dy < 0x1_0000_0000_0000_0000_0000_0000_0000,
    ensures
        g == settle(
            content,
            Slot { dx: dx as int, dy: dy as int, width: width as int, height: height as int },
        ),
{
    Geometry {
        x: saturate(content.x as i128 + dx),
        y: saturate(content.y as i128 + dy),
        width,
        height,
    }
}

/// The boxes of the children of a row or a column.
fn arrange_line(flow: &Flow, children: &Vec<Element>, content: Geometry, row: bool) -> (boxes: Vec<
    Geometry,
>)
    requires
        flow.kind == (if row {
            LayoutType::Row
        } else {
            LayoutType::Column
        }),
    ensures
        boxes@.len() == children@.len(),
        forall|i: int|
            0 <= i < children@.len() ==> #[trigger] boxes@[i] == settle(content, slot(*flow, children@, content, i),
            ),
{
    let n: usize = children.len();
    let length: u32 = if row {
        content.width
    } else {
        content.height
    };
    let cross: u32 = if row {
        content.height
    } else {
        content.width
    };
    let ghost line = line_of(children@, row, length, flow.gap, flow.wrap);
    let division = distribute(children, row, length, flow.gap, flow.wrap);
    let mut boxes: Vec<Geometry> = Vec::new();
    let mut pen_main: u128 = 0;
    let mut pen_cross: u128 = 0;
    let mut pen_extent: u32 = 0;
    let mut i: usize = 0;
    while i < n
        invariant
            n == children.len(),
            i <= n,
            flow.kind == (if row {
                LayoutType::Row
            } else {
                LayoutType::Column
            }),
            length == (if row {
                content.width
            } else {
                content.height
            }),
            cross == (if row {
                content.height
            } else {
                content.width
            }),
            line == line_of(children@, row, length, flow.gap, flow.wrap),
            division.spans@.len() == n,
            forall|j: int|
                0 <= j < n ==> (#[trigger] division.spans@[j]).start == line.start(j)
                    && division.spans@[j].length == line.main_length(j),
            division.leftover == line.leftover(),
            cursor_at(line, i as int) == (Cursor {
                main: pen_main as int,
                cross: pen_cross as int,
                extent: pen_extent as int,
            }),
            pen_main <= i * 0x2_0000_0000,
            pen_cross <= i * 0x2_0000_0000,
            boxes@.len() == i,
            forall|j: int|
                0 <= j < i ==> #[trigger] boxes@[j] == settle(content, slot(*flow, children@, content, j),
                ),
        decreases n - i,
    {
        let child = &children[i];
        let span: Span = division.spans[i];
        let natural: u32 = cross_length_of(child, row, AlignItems::Start, 0);
        let wraps: bool = pen_main > 0 && pen_main + span.length as u128 > length as u128;
        let (main, across, cross_len): (i128, i128, u32) = if flow.wrap {
            if wraps {
                (0, (pen_cross + pen_extent as u128 + flow.gap as u128) as i128, natural)
            } else {
                (pen_main as i128, pen_cross as i128, natural)
            }
        } else {
            let align = align_for(child, flow.align);
            let len = cross_length_of(child, row, align, cross);
            let shift = shift_of(flow.justify, division.leftover, n, i);
            proof {
                lemma_start_bound(line, i as int);
            }
            ((span.start + shift) as i128, cross_shift_of(align, cross, len) as i128, len)
        };
        let g = if row {
            settle_at(content, main, across, span.length, cross_len)
        } else {
            settle_at(content, across, main, cross_len, span.length)
        };
        assert(g == settle(content, slot(*flow, children@, content, i as int)));
        boxes.push(g);
        if wraps {
            pen_main = span.length as u128 + flow.gap as u128;
            pen_cross = pen_cross + pen_extent as u128 + flow.gap as u128;
            pen_extent = natural;
        } else {
            pen_main = pen_main + span.length as u128 + flow.gap as u128;
            if natural > pen_extent {
                pen_extent = natural;
            }
        }
        i += 1;
    }
    boxes
}

/// The packed start of a child stays far below the largest number that the
/// engine can hold.
pub proof fn lemma_start_bound(line: Line, i: int)
    requires
        0 <= i <= line.n(),
        line.n() <= 0xffff_ffff_ffff_ffff,
        0 <= line.gap <= u32::MAX,
        0 <= line.length <= u32::MAX,
    ensures
        0 <= line.start(i) <= 0x10_0000_0000_0000_0000_0000_0000,
{
    let total = line.total();
    let before = crate::flow::sums(line.children, line.row, i);
    lemma_sums_step(line.children, line.row, i);
    lemma_sums_step(line.children, line.row, line.n());
    lemma_sums_monotone(line.children, line.row, i, line.n());
    lemma_soft_base(line.children, line.row, i);
    crate::flow::lemma_grown_bounds(total, line.free(), before);
    crate::flow::lemma_shrunk_covered(total, line.free(), line.wrap, before);
    assert(0 <= line.gap * i <= 0xffff_ffff * 0xffff_ffff_ffff_ffff) by (nonlinear_arith)
        requires
            0 <= line.gap <= 0xffff_ffff,
            0 <= i <= 0xffff_ffff_ffff_ffff,
    ;
    assert(line.gap * (line.n() - 1) >= 0 || line.n() == 0) by (nonlinear_arith)
        requires
            0 <= line.gap,
            0 <= line.n(),
    ;
}

/// The boxes of the children of a container with the box `own`, in order.
pub fn arrange(flow: &Flow, children: &Vec<Element>, own: Geometry) -> (boxes: Vec<Geometry>)
    ensures
        boxes@ == child_boxes(*flow, children@, own),
{
    let content = content_of(own, flow.padding);
    let boxes = match flow.kind {
        LayoutType::Stack => {
            let mut boxes: Vec<Geometry> = Vec::new();
            let mut i: usize = 0;
            while i < children.len()
                invariant
                    i <= children.len(),
                    flow.kind == LayoutType::Stack,
                    boxes@.len() == i,
                    forall|j: int|
                        0 <= j < i ==> #[trigger] boxes@[j] == settle(content, slot(*flow, children@, content, j),
                        ),
                decreases children.len() - i,
            {
                let g = settle_at(content, 0, 0, content.width, content.height);
                boxes.push(g);
                i += 1;
            }
            boxes
        },
        LayoutType::Row => arrange_line(flow, children, content, true),
        LayoutType::Column => arrange_line(flow, children, content, false),
    };
    assert(boxes@ =~= child_boxes(*flow, children@, own));
    boxes
}


/// See [`root_box`].
pub fn root_geometry(root: &Element, given: Geometry) -> (own: Geometry)
    ensures
        own == root_box(*root, given),
{
    let (x, y): (i64, i64) = match root.position {
        Some(p) => (saturate(given.x as i128 + p.x as i128), saturate(given.y as i128 + p.y as i128)),
        None => (given.x, given.y),
    };
    let (width, height): (u32, u32) = match root.size {
        Some(v) => (clamp_authored(v.x), clamp_authored(v.y)),
        None => (given.width, given.height),
    };
    Geometry { x, y, width, height }
}

/// Lays out the node `e`, whose own box is `own`, and everything below it,
/// and appends the boxes to `out`.
pub fn layout_node(e: &Element, own: Geometry, out: &mut Vec<Placement>)
    ensures
        final(out)@ == old(out)@ + node_placements(*e, own),
    decreases *e,
{
    let ghost before = out@;
    match &e.kind {
        ElementKind::Container { children, layout } => {
            if children.len() > 0 && own.width > 0 && own.height > 0 {
                out.push(Placement { id: e.id, geometry: own });
                let flow = layout.flow();
                let boxes = arrange(&flow, children, own);
                let ghost head = seq![Placement { id: e.id, geometry: own }];
                let mut i: usize = 0;
                assert(out@ =~= before + head);
                while i < children.len()
                    invariant
                        i <= children.len(),
                        e.kind is Container,
                        e.kind->children == *children,
                        boxes@.len() == children@.len(),
                        out@ + children_placements(children@, boxes@, i as int) == before + head
                            + children_placements(children@, boxes@, 0),
                    decreases children.len() - i,
                {
                    let ghost so_far = out@;
                    layout_node(&children[i], boxes[i], out);
                    assert(out@ + children_placements(children@, boxes@, i + 1) =~= so_far
                        + children_placements(children@, boxes@, i as int));
                    i += 1;
                }
                assert(out@ =~= out@ + children_placements(children@, boxes@, i as int));
                assert(before + head + children_placements(children@, boxes@, 0) =~= before + (head
                    + children_placements(children@, boxes@, 0)));
            } else {
                assert(out@ =~= before + node_placements(*e, own));
            }
        },
        _ => {
            out.push(Placement { id: e.id, geometry: own });
            assert(out@ =~= before + node_placements(*e, own));
        },
    }
}

/// Lays out the tree below `root`, which is given the box `given`: one box
/// for every node that is laid out, parents before their children and
/// siblings from first to last.
pub fn layout(root: &Element, given: Geometry) -> (placements: Vec<Placement>)
    ensures
        placements@ == layout_of(*root, given),
{
    let mut out: Vec<Placement> = Vec::new();
    layout_node(root, root_geometry(root, given), &mut out);
    assert(out@ =~= layout_of(*root, given));
    out
}


/// The extent of a box along the main axis of its container.
pub open spec fn main_extent(g: Geometry, row: bool) -> int {
    if row {
        g.width as int
    } else {
        g.height as int
    }
}

/// The main-axis extents of the first `upto` boxes, added up.
pub open spec fn extents_sum(boxes: Seq<Geometry>, row: bool, upto: int) -> int
    decreases upto,
{
    if upto <= 0 {
        0
    } else {
        extents_sum(boxes, row, upto - 1) + main_extent(boxes[upto - 1], row)
    }
}

/// The line that the children of a row or a column form inside the box `own`.
pub open spec fn line_in(flow: Flow, cs: Seq<Element>, own: Geometry) -> Line {
    let content = content_box(own, flow.padding);
    if flow.kind == LayoutType::Row {
        line_of(cs, true, content.width, flow.gap, flow.wrap)
    } else {
        line_of(cs, false, content.height, flow.gap, flow.wrap)
    }
}

/// In a stack every child is exactly as large as the content box, whatever
/// size it asks for.
pub proof fn lemma_stack_children_fill(flow: Flow, cs: Seq<Element>, own: Geometry, i: int)
    requires
        flow.kind == LayoutType::Stack,
        0 <= i < cs.len(),
    ensures
        child_boxes(flow, cs, own)[i].width == content_box(own, flow.padding).width,
        child_boxes(flow, cs, own)[i].height == content_box(own, flow.padding).height,
{
}

/// The main-axis extent of the box of a child in a row or a column is the
/// length that its line gives it.
pub proof fn lemma_extent_is_length(flow: Flow, cs: Seq<Element>, own: Geometry, i: int)
    requires
        flow.kind != LayoutType::Stack,
        0 <= i < cs.len(),
    ensures
        main_extent(child_boxes(flow, cs, own)[i], flow.kind == LayoutType::Row) == line_in(
            flow,
            cs,
            own,
        ).main_length(i),
{
    crate::flow::lemma_main_length_bounds(line_in(flow, cs, own), i);
}

/// The extents of the first boxes of a row or a column add up to the
/// lengths that the line gives the first children.
pub proof fn lemma_extents_sum(flow: Flow, cs: Seq<Element>, own: Geometry, upto: int)
    requires
        flow.kind != LayoutType::Stack,
        0 <= upto <= cs.len(),
    ensures
        extents_sum(child_boxes(flow, cs, own), flow.kind == LayoutType::Row, upto)
            == crate::flow::lengths_sum(line_in(flow, cs, own), upto),
    decreases upto,
{
    if upto > 0 {
        lemma_extents_sum(flow, cs, own, upto - 1);
        lemma_extent_is_length(flow, cs, own, upto - 1);
    }
}

/// In a row or a column whose children can take up the main axis (some
/// child grows into what is free, or the soft children can give up what is
/// missing), the main-axis extents of the boxes of the children and the gaps
/// between them add up to the main-axis length of the content box exactly.
pub proof fn lemma_flex_conservation(flow: Flow, cs: Seq<Element>, own: Geometry)
    requires
        flow.kind != LayoutType::Stack,
        line_in(flow, cs, own).fills(),
    ensures
        extents_sum(child_boxes(flow, cs, own), flow.kind == LayoutType::Row, cs.len() as int)
            + crate::flow::gaps(flow.gap as int, cs.len() as int) == main_extent(
            content_box(own, flow.padding),
            flow.kind == LayoutType::Row,
        ),
{
    lemma_extents_sum(flow, cs, own, cs.len() as int);
    crate::flow::lemma_line_is_filled(line_in(flow, cs, own));
}


} // verus!
