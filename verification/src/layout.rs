//! Layout descriptions attached to containers.
//!
//! A container carries exactly one description.  Two families exist: the
//! box model ([`Unwa`]: direction, one alignment, overflow policy, gap and
//! padding) and the flex model ([`Flex`]: direction, main-axis distribution,
//! cross-axis alignment and gap).  Both are brought to one common form,
//! [`Flow`], which is what the layout engine works on.

use vstd::prelude::*;

verus! {

/// The direction in which a container lays out its children.
#[derive(Clone, Copy, Debug, PartialEq, Eq, Structural)]
pub enum LayoutType {
    /// Children are piled on top of each other; each one fills the content box.
    Stack,
    /// Children follow each other from left to right.
    Row,
    /// Children follow each other from top to bottom.
    Column,
}

/// How the children of a box-model container are aligned.
#[derive(Clone, Copy, Debug, PartialEq, Eq, Structural)]
pub enum ContentAlignment {
    /// Towards the head of the axis.
    Start,
    /// Towards the tail of the axis.
    End,
    /// Around the middle of the axis.
    Center,
    /// Filling the whole cross axis.
    Stretch,
    /// With equal space between neighbours on the main axis.
    SpaceBetween,
}

/// What happens to children that do not fit into the content box.
#[derive(Clone, Copy, Debug, PartialEq, Eq, Structural)]
pub enum OverflowBehavior {
    /// What lies outside is cut off; nothing is moved.
    Clip,
    /// What lies outside stays visible; nothing is moved.
    Visible,
    /// A child that would cross the end of the content box starts a new line.
    Wrap,
}

/// The box model of a container.
#[derive(Clone, Copy, Debug, PartialEq, Eq, Structural)]
pub struct Unwa {
    pub layout: LayoutType,
    pub alignment: ContentAlignment,
    pub overflow: OverflowBehavior,
    /// The distance between neighbouring children on the main axis.
    pub gap: u32,
    /// The distance kept free on every side of the container.
    pub padding: u32,
}

/// The main axis of a flex container.
#[derive(Clone, Copy, Debug, PartialEq, Eq, Structural)]
pub enum FlexDirection {
    Row,
    Column,
}

/// How a flex container distributes what is left of its main axis.
#[derive(Clone, Copy, Debug, PartialEq, Eq, Structural)]
pub enum JustifyContent {
    /// Children are packed at the head.
    Start,
    /// Children are packed at the tail.
    End,
    /// The packed children are centred.
    Center,
    /// The free space lies between neighbours.
    SpaceBetween,
    /// Every child has the same free space on both of its sides.
    SpaceAround,
    /// The free space lies in equal parts before, between and after the children.
    SpaceEvenly,
}

/// How a container places its children on the cross axis.
#[derive(Clone, Copy, Debug, PartialEq, Eq, Structural)]
pub enum AlignItems {
    /// A child without a size of its own takes the whole cross length.
    Stretch,
    Start,
    End,
    Center,
}

/// The flex model of a container.
#[derive(Clone, Copy, Debug, PartialEq, Eq, Structural)]
pub struct Flex {
    pub direction: FlexDirection,
    pub justify: JustifyContent,
    pub align: AlignItems,
    /// The distance between neighbouring children on the main axis.
    pub gap: u32,
}

/// The layout of a container.
#[derive(Clone, Copy, Debug, PartialEq, Eq, Structural)]
pub enum Layout {
    Unwa(Unwa),
    Flex(Flex),
}

/// The common form of both layout models.
#[derive(Clone, Copy, Debug, PartialEq, Eq, Structural)]
pub struct Flow {
    pub kind: LayoutType,
    pub justify: JustifyContent,
    pub align: AlignItems,
    pub gap: u32,
    pub padding: u32,
    pub wrap: bool,
}

impl Default for LayoutType {
    fn default() -> (r: Self)
        ensures
            r == LayoutType::Stack,
    {
        LayoutType::Stack
    }
}

impl Default for ContentAlignment {
    fn default() -> (r: Self)
        ensures
            r == ContentAlignment::Start,
    {
        ContentAlignment::Start
    }
}

impl Default for OverflowBehavior {
    fn default() -> (r: Self)
        ensures
            r == OverflowBehavior::Clip,
    {
        OverflowBehavior::Clip
    }
}

/// The box model that a container has when nothing else is asked for.
pub open spec fn default_unwa() -> Unwa {
    Unwa {
        layout: LayoutType::Column,
        alignment: ContentAlignment::Start,
        overflow: OverflowBehavior::Clip,
        gap: 0,
        padding: 0,
    }
}

/// The flex model that a container has when nothing else is asked for.
pub open spec fn default_flex() -> Flex {
    Flex {
        direction: FlexDirection::Row,
        justify: JustifyContent::Start,
        align: AlignItems::Stretch,
        gap: 0,
    }
}

impl Default for Unwa {
    fn default() -> (r: Self)
        ensures
            r == default_unwa(),
    {
        Unwa {
            layout: LayoutType::Column,
            alignment: ContentAlignment::Start,
            overflow: OverflowBehavior::Clip,
            gap: 0,
            padding: 0,
        }
    }
}

impl Default for Flex {
    fn default() -> (r: Self)
        ensures
            r == default_flex(),
    {
        Flex {
            direction: FlexDirection::Row,
            justify: JustifyContent::Start,
            align: AlignItems::Stretch,
            gap: 0,
        }
    }
}

impl Default for Layout {
    fn default() -> (r: Self)
        ensures
            r == Layout::Unwa(default_unwa()),
    {
        Layout::Unwa(Unwa::default())
    }
}

/// The main-axis distribution that one alignment of the box model stands for.
/// `Stretch` says nothing about the main axis and packs at the head.
pub open spec fn justify_of(alignment: ContentAlignment) -> JustifyContent {
    match alignment {
        ContentAlignment::Start => JustifyContent::Start,
        ContentAlignment::End => JustifyContent::End,
        ContentAlignment::Center => JustifyContent::Center,
        ContentAlignment::Stretch => JustifyContent::Start,
        ContentAlignment::SpaceBetween => JustifyContent::SpaceBetween,
    }
}

/// The cross-axis alignment that one alignment of the box model stands for.
/// `SpaceBetween` says nothing about the cross axis and aligns at the head.
pub open spec fn align_of(alignment: ContentAlignment) -> AlignItems {
    match alignment {
        ContentAlignment::Start => AlignItems::Start,
        ContentAlignment::End => AlignItems::End,
        ContentAlignment::Center => AlignItems::Center,
        ContentAlignment::Stretch => AlignItems::Stretch,
        ContentAlignment::SpaceBetween => AlignItems::Start,
    }
}

/// The common form of a layout.  A flex container has no padding and never
/// wraps; a box-model container uses its one alignment on both axes.
pub open spec fn flow_of(layout: Layout) -> Flow {
    match layout {
        Layout::Unwa(u) => Flow {
            kind: u.layout,
            justify: justify_of(u.alignment),
            align: align_of(u.alignment),
            gap: u.gap,
            padding: u.padding,
            wrap: u.overflow == OverflowBehavior::Wrap,
        },
        Layout::Flex(f) => Flow {
            kind: match f.direction {
                FlexDirection::Row => LayoutType::Row,
                FlexDirection::Column => LayoutType::Column,
            },
            justify: f.justify,
            align: f.align,
            gap: f.gap,
            padding: 0,
            wrap: false,
        },
    }
}

impl ContentAlignment {
    /// See [`justify_of`].
    pub fn justify(self) -> (j: JustifyContent)
        ensures
            j == justify_of(self),
    {
        match self {
            ContentAlignment::Start => JustifyContent::Start,
            ContentAlignment::End => JustifyContent::End,
            ContentAlignment::Center => JustifyContent::Center,
            ContentAlignment::Stretch => JustifyContent::Start,
            ContentAlignment::SpaceBetween => JustifyContent::SpaceBetween,
        }
    }

    /// See [`align_of`].
    pub fn align(self) -> (a: AlignItems)
        ensures
            a == align_of(self),
    {
        match self {
            ContentAlignment::Start => AlignItems::Start,
            ContentAlignment::End => AlignItems::End,
            ContentAlignment::Center => AlignItems::Center,
            ContentAlignment::Stretch => AlignItems::Stretch,
            ContentAlignment::SpaceBetween => AlignItems::Start,
        }
    }
}

impl Layout {
    /// See [`flow_of`].
    pub fn flow(&self) -> (f: Flow)
        ensures
            f == flow_of(*self),
    {
        match self {
            Layout::Unwa(u) => Flow {
                kind: u.layout,
                justify: u.alignment.justify(),
                align: u.alignment.align(),
                gap: u.gap,
                padding: u.padding,
                wrap: match u.overflow {
                    OverflowBehavior::Wrap => true,
                    _ => false,
                },
            },
            Layout::Flex(f) => Flow {
                kind: match f.direction {
                    FlexDirection::Row => LayoutType::Row,
                    FlexDirection::Column => LayoutType::Column,
                },
                justify: f.justify,
                align: f.align,
                gap: f.gap,
                padding: 0,
                wrap: false,
            },
        }
    }
}

} // verus!
