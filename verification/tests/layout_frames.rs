use firework::backend::{Op, Step};
use firework::element::{container, rect, Element, ElementId, IdGenerator};
use firework::engine::{layout, Placement};
use firework::geometry::{Geometry, ScaleFactor, Vector2};
use firework::layout::{
    AlignItems, ContentAlignment, Flex, FlexDirection, JustifyContent, Layout, LayoutType,
    OverflowBehavior, Unwa,
};
use firework::moon_bridge::MoonBridge;
use firework::widget_tree::{update_tree, FireTree};

/// A rectangle without a size of its own and with the given weight.
fn flexible(ids: &mut IdGenerator, weight: u32) -> Element {
    Element { size: None, ..rect(ids, 0) }.layout_weight(weight)
}

fn viewport(width: u32, height: u32) -> Geometry {
    Geometry { x: 0, y: 0, width, height }
}

fn positions(steps: &[Step]) -> Vec<(ElementId, i64, i64)> {
    steps
        .iter()
        .filter_map(|s| match s.op {
            Op::SetPosition { x, y } => Some((s.element, x, y)),
            _ => None,
        })
        .collect()
}

fn sizes(steps: &[Step]) -> Vec<(ElementId, u64, u64)> {
    steps
        .iter()
        .filter_map(|s| match s.op {
            Op::SetSize { width, height } => Some((s.element, width, height)),
            _ => None,
        })
        .collect()
}

#[test]
fn row_shares_width_between_two_weighted_children() {
    let mut ids = IdGenerator::new();
    let a = flexible(&mut ids, 1);
    let b = flexible(&mut ids, 1);
    let tree = container(
        &mut ids,
        Layout::Unwa(Unwa { layout: LayoutType::Row, gap: 10, ..Unwa::default() }),
        vec![a, b],
    )
    .size((300, 100));
    let placements = layout(&tree, viewport(600, 800));
    assert_eq!(
        placements,
        vec![
            Placement { id: ElementId(3), geometry: Geometry { x: 0, y: 0, width: 300, height: 100 } },
            Placement { id: ElementId(1), geometry: Geometry { x: 0, y: 0, width: 145, height: 100 } },
            Placement {
                id: ElementId(2),
                geometry: Geometry { x: 155, y: 0, width: 145, height: 100 },
            },
        ]
    );

    let bridge = MoonBridge::new(ScaleFactor::identity());
    let steps = update_tree(&tree, &placements, &FireTree::new(), &bridge);
    assert_eq!(positions(&steps), vec![(ElementId(1), 0, 0), (ElementId(2), 155, 0)]);
    assert_eq!(sizes(&steps), vec![(ElementId(1), 145, 100), (ElementId(2), 145, 100)]);
}

#[test]
fn column_centres_a_single_fixed_child() {
    let mut ids = IdGenerator::new();
    let child = rect(&mut ids, 0).size((100, 100));
    let tree = container(
        &mut ids,
        Layout::Unwa(Unwa {
            layout: LayoutType::Column,
            alignment: ContentAlignment::Center,
            ..Unwa::default()
        }),
        vec![child],
    )
    .size((100, 400));
    let placements = layout(&tree, viewport(600, 800));
    assert_eq!(
        placements[1],
        Placement { id: ElementId(1), geometry: Geometry { x: 0, y: 150, width: 100, height: 100 } }
    );

    let bridge = MoonBridge::new(ScaleFactor::identity());
    let steps = update_tree(&tree, &placements, &FireTree::new(), &bridge);
    assert_eq!(positions(&steps), vec![(ElementId(1), 0, 150)]);
    assert_eq!(sizes(&steps), vec![(ElementId(1), 100, 100)]);
}

#[test]
fn a_flex_column_centres_its_child_too() {
    let mut ids = IdGenerator::new();
    let child = rect(&mut ids, 0).size(Vector2::new(50, 100));
    let tree = Element {
        size: None,
        ..container(
            &mut ids,
            Layout::Flex(Flex {
                direction: FlexDirection::Column,
                justify: JustifyContent::Center,
                align: AlignItems::Start,
                gap: 0,
            }),
            vec![child],
        )
    };
    let placements = layout(&tree, viewport(200, 400));
    assert_eq!(placements[0].geometry, viewport(200, 400));
    assert_eq!(placements[1].geometry, Geometry { x: 0, y: 150, width: 50, height: 100 });
}

#[test]
fn stack_gives_every_child_the_content_box() {
    let mut ids = IdGenerator::new();
    let a = rect(&mut ids, 0).size((10, 10));
    let b = flexible(&mut ids, 3);
    let tree = Element {
        size: None,
        ..container(
            &mut ids,
            Layout::Unwa(Unwa {
                layout: LayoutType::Stack,
                alignment: ContentAlignment::Center,
                overflow: OverflowBehavior::Clip,
                gap: 7,
                padding: 20,
            }),
            vec![a, b],
        )
    };
    let placements = layout(&tree, viewport(300, 200));
    let content = Geometry { x: 20, y: 20, width: 260, height: 160 };
    assert_eq!(placements[1].geometry, content);
    assert_eq!(placements[2].geometry, content);
}
