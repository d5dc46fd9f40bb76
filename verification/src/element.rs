//! The declarative element tree and the functions that build it.
//!
//! A tree is plain data.  The only state involved in building one is the
//! [`IdGenerator`] that hands out identities: it is passed to every
//! constructor, so that a caller decides where identities start.

use vstd::prelude::*;
use crate::geometry::Vector2;
use crate::layout::{ContentAlignment, Layout, LayoutType, OverflowBehavior, Unwa};

verus! {

/// The identity of a node.  Two nodes of different frames are the same
/// logical node exactly if their identities are equal.
#[derive(Clone, Copy, Debug, PartialEq, Eq, Hash, Structural)]
pub struct ElementId(pub u64);

/// The source of identities: each one it hands out is one more than the last.
#[derive(Debug)]
pub struct IdGenerator {
    /// The identity that is handed out next.
    pub next: u64,
}

/// The identity that follows `raw`; after the largest one the count starts over.
pub open spec fn following_id(raw: u64) -> u64 {
    if raw == u64::MAX {
        0
    } else {
        (raw + 1) as u64
    }
}

/// The identity handed out `k` steps after `first`.
pub open spec fn nth_id(first: u64, k: nat) -> u64
    decreases k,
{
    if k == 0 {
        first
    } else {
        following_id(nth_id(first, (k - 1) as nat))
    }
}

impl IdGenerator {
    /// A generator whose first identity is 1.
    pub fn new() -> (ids: IdGenerator)
        ensures
            ids.next == 1,
    {
        IdGenerator { next: 1 }
    }

    /// A generator whose first identity is `first`.
    pub fn starting_at(first: u64) -> (ids: IdGenerator)
        ensures
            ids.next == first,
    {
        IdGenerator { next: first }
    }
}

impl ElementId {
    /// Takes the next identity out of `ids`.
    pub fn new(ids: &mut IdGenerator) -> (id: ElementId)
        ensures
            id.0 == old(ids).next,
            final(ids).next == following_id(old(ids).next),
    {
        let raw: u64 = ids.next;
        ids.next = if raw == u64::MAX {
            0
        } else {
            raw + 1
        };
        ElementId(raw)
    }

    /// The number behind the identity.
    pub fn raw(&self) -> (raw: u64)
        ensures
            raw == self.0,
    {
        self.0
    }
}

/// An RGBA colour.  Each channel is given in thousandths: 0 is none, 1000 is full.
#[derive(Clone, Copy, Debug, PartialEq, Eq, Structural)]
pub struct Color {
    pub r: u16,
    pub g: u16,
    pub b: u16,
    pub a: u16,
}

impl Color {
    pub fn rgba(r: u16, g: u16, b: u16, a: u16) -> (c: Color)
        ensures
            c == (Color { r, g, b, a }),
    {
        Color { r, g, b, a }
    }

    pub fn red() -> (c: Color)
        ensures
            c == (Color { r: 1000, g: 0, b: 0, a: 1000 }),
    {
        Color { r: 1000, g: 0, b: 0, a: 1000 }
    }

    pub fn green() -> (c: Color)
        ensures
            c == (Color { r: 0, g: 1000, b: 0, a: 1000 }),
    {
        Color { r: 0, g: 1000, b: 0, a: 1000 }
    }

    pub fn blue() -> (c: Color)
        ensures
            c == (Color { r: 0, g: 0, b: 1000, a: 1000 }),
    {
        Color { r: 0, g: 0, b: 1000, a: 1000 }
    }

    pub fn white() -> (c: Color)
        ensures
            c == white(),
    {
        Color { r: 1000, g: 1000, b: 1000, a: 1000 }
    }

    pub fn black() -> (c: Color)
        ensures
            c == black(),
    {
        Color { r: 0, g: 0, b: 0, a: 1000 }
    }
}

/// Opaque white.
pub open spec fn white() -> Color {
    Color { r: 1000, g: 1000, b: 1000, a: 1000 }
}

/// Opaque black.
pub open spec fn black() -> Color {
    Color { r: 0, g: 0, b: 0, a: 1000 }
}

/// A rotation, tagged with its unit.  The number counts thousandths of the unit.
#[derive(Clone, Copy, Debug, PartialEq, Eq, Structural)]
pub enum Angle {
    Radians(i32),
    Degrees(i32),
}

/// One node of the declarative tree.
#[derive(Debug)]
pub struct Element {
    pub id: ElementId,
    pub kind: ElementKind,
    pub background_color: Option<Color>,
    pub color: Option<Color>,
    /// Where the root of a tree is put within the box it is given.  Below
    /// the root the layout of the parent decides, and this is not read.
    pub position: Option<Vector2>,
    /// How large the node is.  Without it the layout of the parent decides.
    pub size: Option<Vector2>,
    pub rotation: Option<Angle>,
    pub roundedness: i8,
    /// The share of the free main-axis space that the node takes; 0 keeps it fixed.
    pub layout_weight: u32,
    /// Overrides the cross-axis alignment of the parent for this node.
    pub self_alignment: Option<ContentAlignment>,
    /// Paint order among siblings; layout does not read it.
    pub z_index: i32,
    pub dirty: bool,
}

/// What a node is.
#[derive(Debug)]
pub enum ElementKind {
    Empty,
    Rect { roundedness: i8 },
    Text { content: String, font_size: u32 },
    Container { children: Vec<Element>, layout: Layout },
}

/// The font size of a text that was given none.
pub const DEFAULT_FONT_SIZE: u32 = 16;

/// The node of identity `id` that has every attribute at its default.
pub open spec fn blank(id: ElementId) -> Element {
    Element {
        id,
        kind: ElementKind::Empty,
        background_color: None,
        color: None,
        position: Some(Vector2 { x: 0, y: 0 }),
        size: Some(Vector2 { x: 100, y: 100 }),
        rotation: Some(Angle::Degrees(0)),
        roundedness: 0,
        layout_weight: 0,
        self_alignment: None,
        z_index: 0,
        dirty: true,
    }
}

/// The box model of the given direction with everything else at its default.
pub open spec fn unwa_of(layout: LayoutType) -> Unwa {
    Unwa {
        layout,
        alignment: ContentAlignment::Start,
        overflow: OverflowBehavior::Clip,
        gap: 0,
        padding: 0,
    }
}

impl Element {
    /// An empty node with a new identity and every attribute at its default.
    pub fn new(ids: &mut IdGenerator) -> (e: Element)
        ensures
            e == blank(ElementId(old(ids).next)),
            final(ids).next == following_id(old(ids).next),
    {
        Element {
            id: ElementId::new(ids),
            kind: ElementKind::Empty,
            background_color: None,
            color: None,
            position: Some(Vector2::zero()),
            size: Some(Vector2::new(100, 100)),
            rotation: Some(Angle::Degrees(0)),
            roundedness: 0,
            layout_weight: 0,
            self_alignment: None,
            z_index: 0,
            dirty: true,
        }
    }

    pub fn background(self, color: Color) -> (e: Element)
        ensures
            e == (Element { background_color: Some(color), ..self }),
    {
        let mut e = self;
        e.background_color = Some(color);
        e
    }

    pub fn color(self, color: Color) -> (e: Element)
        ensures
            e == (Element { color: Some(color), ..self }),
    {
        let mut e = self;
        e.color = Some(color);
        e
    }

    pub fn position<P: Into<Vector2>>(self, pos: P) -> (e: Element)
        ensures
            call_ensures(P::into, (pos,), e.position.unwrap()),
            e == (Element { position: Some(e.position.unwrap()), ..self }),
    {
        let mut e = self;
        e.position = Some(pos.into());
        e
    }

    pub fn size<S: Into<Vector2>>(self, size: S) -> (e: Element)
        ensures
            call_ensures(S::into, (size,), e.size.unwrap()),
            e == (Element { size: Some(e.size.unwrap()), ..self }),
    {
        let mut e = self;
        e.size = Some(size.into());
        e
    }

    pub fn rotation(self, angle: Angle) -> (e: Element)
        ensures
            e == (Element { rotation: Some(angle), ..self }),
    {
        let mut e = self;
        e.rotation = Some(angle);
        e
    }

    pub fn layout_weight(self, weight: u32) -> (e: Element)
        ensures
            e == (Element { layout_weight: weight, ..self }),
    {
        let mut e = self;
        e.layout_weight = weight;
        e
    }

    pub fn self_alignment(self, align: ContentAlignment) -> (e: Element)
        ensures
            e == (Element { self_alignment: Some(align), ..self }),
    {
        let mut e = self;
        e.self_alignment = Some(align);
        e
    }

    pub fn z_index(self, index: i32) -> (e: Element)
        ensures
            e == (Element { z_index: index, ..self }),
    {
        let mut e = self;
        e.z_index = index;
        e
    }
}

/// `From::from` of a value into its own type, from the standard library:
/// it gives the value back as it is.
pub assume_specification<A>[ <A as std::convert::From<A>>::from ](value: A) -> (same: A)
    ensures
        same == value,
;

impl From<(i32, i32)> for Vector2 {
    fn from(pair: (i32, i32)) -> (v: Vector2) {
        Vector2 { x: pair.0, y: pair.1 }
    }
}

impl vstd::std_specs::convert::FromSpecImpl<(i32, i32)> for Vector2 {
    open spec fn obeys_from_spec() -> bool {
        true
    }

    open spec fn from_spec(pair: (i32, i32)) -> Vector2 {
        Vector2 { x: pair.0, y: pair.1 }
    }
}

/// A text node: black, of the default font size.
pub fn text(ids: &mut IdGenerator, content: &str) -> (e: Element)
    ensures
        e.kind matches ElementKind::Text { content: c, font_size }
            && c@ == content@ && font_size == DEFAULT_FONT_SIZE,
        (Element { kind: ElementKind::Empty, ..e })
            == (Element { color: Some(black()), ..blank(ElementId(old(ids).next)) }),
        final(ids).next == following_id(old(ids).next),
{
    let mut e = Element::new(ids);
    e.kind = ElementKind::Text { content: content.to_owned(), font_size: DEFAULT_FONT_SIZE };
    e.color = Some(Color::black());
    e
}

/// A container node with the given layout and children.
pub fn container(ids: &mut IdGenerator, layout: Layout, children: Vec<Element>) -> (e: Element)
    ensures
        e == (Element {
            kind: ElementKind::Container { children, layout },
            ..blank(ElementId(old(ids).next))
        }),
        final(ids).next == following_id(old(ids).next),
{
    let mut e = Element::new(ids);
    e.kind = ElementKind::Container { children, layout };
    e
}

/// A rectangle node: black, with the given roundedness.
pub fn rect(ids: &mut IdGenerator, roundedness: i8) -> (e: Element)
    ensures
        e == (Element {
            kind: ElementKind::Rect { roundedness },
            color: Some(black()),
            roundedness,
            ..blank(ElementId(old(ids).next))
        }),
        final(ids).next == following_id(old(ids).next),
{
    let mut e = Element::new(ids);
    e.kind = ElementKind::Rect { roundedness };
    e.color = Some(Color::black());
    e.roundedness = roundedness;
    e
}

/// A container that piles its children on top of each other.
pub fn stack_of(ids: &mut IdGenerator, children: Vec<Element>) -> (e: Element)
    ensures
        e == (Element {
            kind: ElementKind::Container {
                children,
                layout: Layout::Unwa(unwa_of(LayoutType::Stack)),
            },
            ..blank(ElementId(old(ids).next))
        }),
        final(ids).next == following_id(old(ids).next),
{
    let mut unwa = Unwa::default();
    unwa.layout = LayoutType::Stack;
    container(ids, Layout::Unwa(unwa), children)
}

/// A container that lays its children out from left to right.
pub fn row_of(ids: &mut IdGenerator, children: Vec<Element>) -> (e: Element)
    ensures
        e == (Element {
            kind: ElementKind::Container {
                children,
                layout: Layout::Unwa(unwa_of(LayoutType::Row)),
            },
            ..blank(ElementId(old(ids).next))
        }),
        final(ids).next == following_id(old(ids).next),
{
    let mut unwa = Unwa::default();
    unwa.layout = LayoutType::Row;
    container(ids, Layout::Unwa(unwa), children)
}

/// A container that lays its children out from top to bottom.
pub fn column_of(ids: &mut IdGenerator, children: Vec<Element>) -> (e: Element)
    ensures
        e == (Element {
            kind: ElementKind::Container {
                children,
                layout: Layout::Unwa(unwa_of(LayoutType::Column)),
            },
            ..blank(ElementId(old(ids).next))
        }),
        final(ids).next == following_id(old(ids).next),
{
    let mut unwa = Unwa::default();
    unwa.layout = LayoutType::Column;
    container(ids, Layout::Unwa(unwa), children)
}

/// Identities handed out one after another differ, as long as fewer than
/// 2^64 of them lie between the two.
pub proof fn lemma_ids_never_repeat(first: u64, i: nat, j: nat)
    requires
        i < j,
        j - i < 0x1_0000_0000_0000_0000,
    ensures
        nth_id(first, i) != nth_id(first, j),
{
    lemma_nth_id(first, i);
    lemma_nth_id(first, j);
}

/// The `k`-th identity after `first` is `first + k`, counted modulo 2^64.
pub proof fn lemma_nth_id(first: u64, k: nat)
    ensures
        nth_id(first, k) == (first + k) % 0x1_0000_0000_0000_0000,
    decreases k,
{
    if k > 0 {
        lemma_nth_id(first, (k - 1) as nat);
    }
}

impl Default for ElementKind {
    fn default() -> (kind: ElementKind)
        ensures
            kind is Empty,
    {
        ElementKind::Empty
    }
}

/// Two nodes say the same: they have the same identity and attributes, and
/// their children, taken in order, say the same.
pub open spec fn alike(a: Element, b: Element) -> bool
    decreases a,
{
    &&& (Element { kind: ElementKind::Empty, ..a }) == (Element { kind: ElementKind::Empty, ..b })
    &&& match a.kind {
        ElementKind::Empty => b.kind is Empty,
        ElementKind::Rect { roundedness } => b.kind == a.kind,
        ElementKind::Text { content, font_size } => b.kind matches ElementKind::Text {
            content: other,
            font_size: other_size,
        } && other@ == content@ && other_size == font_size,
        ElementKind::Container { children, layout } => b.kind matches ElementKind::Container {
            children: others,
            layout: other_layout,
        } && other_layout == layout && others@.len() == children@.len() && all_alike(
            children@,
            others@,
            0,
        ),
    }
}

/// The nodes from `from` on say the same, pair by pair.
pub open spec fn all_alike(a: Seq<Element>, b: Seq<Element>, from: int) -> bool
    decreases a, a.len() - from,
{
    if 0 <= from < a.len() {
        alike(a[from], b[from]) && all_alike(a, b, from + 1)
    } else {
        true
    }
}

/// If the first nodes say the same pair by pair, and the rest does, all do.
pub proof fn lemma_all_alike(a: Seq<Element>, b: Seq<Element>, from: int, upto: int)
    requires
        0 <= from <= upto <= a.len(),
        forall|i: int| from <= i < upto ==> alike(#[trigger] a[i], b[i]),
        all_alike(a, b, upto),
    ensures
        all_alike(a, b, from),
    decreases upto - from,
{
    if from < upto {
        lemma_all_alike(a, b, from + 1, upto);
    }
}

impl Clone for Element {
    /// A copy that says the same as the node.  It keeps the identity: no new
    /// one is taken.
    fn clone(&self) -> (copy: Element)
        ensures
            alike(*self, copy),
        decreases *self,
    {
        let kind = match &self.kind {
            ElementKind::Empty => ElementKind::Empty,
            ElementKind::Rect { roundedness } => ElementKind::Rect { roundedness: *roundedness },
            ElementKind::Text { content, font_size } => ElementKind::Text {
                content: content.clone(),
                font_size: *font_size,
            },
            ElementKind::Container { children, layout } => {
                let mut copies: Vec<Element> = Vec::new();
                let mut i: usize = 0;
                while i < children.len()
                    invariant
                        i <= children.len(),
                        self.kind is Container,
                        self.kind->children == *children,
                        copies@.len() == i,
                        forall|j: int| 0 <= j < i ==> alike(#[trigger] children@[j], copies@[j]),
                    decreases children.len() - i,
                {
                    let copy = children[i].clone();
                    copies.push(copy);
                    i += 1;
                }
                proof {
                    lemma_all_alike(children@, copies@, 0, children@.len() as int);
                }
                ElementKind::Container { children: copies, layout: *layout }
            },
        };
        Element {
            id: self.id,
            kind,
            background_color: self.background_color,
            color: self.color,
            position: self.position,
            size: self.size,
            rotation: self.rotation,
            roundedness: self.roundedness,
            layout_weight: self.layout_weight,
            self_alignment: self.self_alignment,
            z_index: self.z_index,
            dirty: self.dirty,
        }
    }
}


} // verus!
