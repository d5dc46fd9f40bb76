use firework::element::{
    column_of, container, rect, row_of, stack_of, text, Angle, Color, Element, ElementId,
    ElementKind, IdGenerator, DEFAULT_FONT_SIZE,
};
use firework::geometry::Vector2;
use firework::layout::{
    AlignItems, ContentAlignment, Flex, FlexDirection, JustifyContent, Layout, LayoutType,
    OverflowBehavior, Unwa,
};

#[test]
fn identities_count_up_from_one() {
    let mut ids = IdGenerator::new();
    assert_eq!(ElementId::new(&mut ids), ElementId(1));
    assert_eq!(ElementId::new(&mut ids), ElementId(2));
    assert_eq!(ElementId::new(&mut ids).raw(), 3);
    assert_eq!(ids.next, 4);
}

#[test]
fn identities_can_start_anywhere_and_start_over_after_the_largest() {
    let mut ids = IdGenerator::starting_at(u64::MAX - 1);
    assert_eq!(ElementId::new(&mut ids), ElementId(u64::MAX - 1));
    assert_eq!(ElementId::new(&mut ids), ElementId(u64::MAX));
    assert_eq!(ElementId::new(&mut ids), ElementId(0));
    assert_eq!(ElementId::new(&mut ids), ElementId(1));
}

#[test]
fn a_new_element_has_the_default_attributes() {
    let mut ids = IdGenerator::new();
    let e = Element::new(&mut ids);
    assert_eq!(e.id, ElementId(1));
    assert!(matches!(e.kind, ElementKind::Empty));
    assert_eq!(e.background_color, None);
    assert_eq!(e.color, None);
    assert_eq!(e.position, Some(Vector2 { x: 0, y: 0 }));
    assert_eq!(e.size, Some(Vector2 { x: 100, y: 100 }));
    assert_eq!(e.rotation, Some(Angle::Degrees(0)));
    assert_eq!(e.roundedness, 0);
    assert_eq!(e.layout_weight, 0);
    assert_eq!(e.self_alignment, None);
    assert_eq!(e.z_index, 0);
    assert!(e.dirty);
}

#[test]
fn a_text_is_black_and_has_the_default_font_size() {
    let mut ids = IdGenerator::starting_at(40);
    let e = text(&mut ids, "Welcome to Firework!");
    assert_eq!(e.id, ElementId(40));
    match &e.kind {
        ElementKind::Text { content, font_size } => {
            assert_eq!(content, "Welcome to Firework!");
            assert_eq!(*font_size, 16);
            assert_eq!(DEFAULT_FONT_SIZE, 16);
        }
        other => panic!("not a text: {:?}", other),
    }
    assert_eq!(e.color, Some(Color::black()));
    assert_eq!(e.size, Some(Vector2 { x: 100, y: 100 }));
    assert_eq!(ids.next, 41);
}

#[test]
fn a_rect_is_black_and_remembers_its_roundedness() {
    let mut ids = IdGenerator::new();
    let e = rect(&mut ids, 15);
    assert!(matches!(e.kind, ElementKind::Rect { roundedness: 15 }));
    assert_eq!(e.roundedness, 15);
    assert_eq!(e.color, Some(Color { r: 0, g: 0, b: 0, a: 1000 }));
    assert_eq!(e.background_color, None);
}

#[test]
fn a_container_owns_its_children_in_order() {
    let mut ids = IdGenerator::new();
    let a = rect(&mut ids, 0);
    let b = text(&mut ids, "b");
    let e = container(&mut ids, Layout::default(), vec![a, b]);
    assert_eq!(e.id, ElementId(3));
    assert_eq!(e.color, None);
    match &e.kind {
        ElementKind::Container { children, layout } => {
            assert_eq!(children.len(), 2);
            assert_eq!(children[0].id, ElementId(1));
            assert_eq!(children[1].id, ElementId(2));
            assert_eq!(*layout, Layout::Unwa(Unwa::default()));
        }
        other => panic!("not a container: {:?}", other),
    }
}

fn layout_of(e: &Element) -> Layout {
    match &e.kind {
        ElementKind::Container { layout, .. } => *layout,
        other => panic!("not a container: {:?}", other),
    }
}

#[test]
fn stack_row_and_column_differ_in_direction_only() {
    let mut ids = IdGenerator::new();
    let plain = Unwa {
        layout: LayoutType::Column,
        alignment: ContentAlignment::Start,
        overflow: OverflowBehavior::Clip,
        gap: 0,
        padding: 0,
    };
    assert_eq!(
        layout_of(&stack_of(&mut ids, vec![])),
        Layout::Unwa(Unwa { layout: LayoutType::Stack, ..plain })
    );
    assert_eq!(
        layout_of(&row_of(&mut ids, vec![])),
        Layout::Unwa(Unwa { layout: LayoutType::Row, ..plain })
    );
    assert_eq!(layout_of(&column_of(&mut ids, vec![])), Layout::Unwa(plain));
}

#[test]
fn setters_change_one_attribute_and_keep_the_identity() {
    let mut ids = IdGenerator::new();
    let e = rect(&mut ids, 2)
        .background(Color::red())
        .color(Color::green())
        .position((300, 200))
        .size(Vector2::new(40, 30))
        .rotation(Angle::Radians(1571))
        .layout_weight(3)
        .self_alignment(ContentAlignment::Center)
        .z_index(-4);
    assert_eq!(e.id, ElementId(1));
    assert_eq!(e.background_color, Some(Color { r: 1000, g: 0, b: 0, a: 1000 }));
    assert_eq!(e.color, Some(Color { r: 0, g: 1000, b: 0, a: 1000 }));
    assert_eq!(e.position, Some(Vector2 { x: 300, y: 200 }));
    assert_eq!(e.size, Some(Vector2 { x: 40, y: 30 }));
    assert_eq!(e.rotation, Some(Angle::Radians(1571)));
    assert_eq!(e.layout_weight, 3);
    assert_eq!(e.self_alignment, Some(ContentAlignment::Center));
    assert_eq!(e.z_index, -4);
    assert_eq!(e.roundedness, 2);
    assert!(e.dirty);
}

#[test]
fn a_pair_converts_into_a_vector() {
    assert_eq!(Vector2::from((3, -4)), Vector2 { x: 3, y: -4 });
    assert_eq!(Vector2::zero(), Vector2::new(0, 0));
}

#[test]
fn named_colours() {
    assert_eq!(Color::red(), Color::rgba(1000, 0, 0, 1000));
    assert_eq!(Color::green(), Color::rgba(0, 1000, 0, 1000));
    assert_eq!(Color::blue(), Color::rgba(0, 0, 1000, 1000));
    assert_eq!(Color::white(), Color::rgba(1000, 1000, 1000, 1000));
    assert_eq!(Color::black(), Color::rgba(0, 0, 0, 1000));
}

#[test]
fn default_layouts() {
    assert_eq!(LayoutType::default(), LayoutType::Stack);
    assert_eq!(ContentAlignment::default(), ContentAlignment::Start);
    assert_eq!(OverflowBehavior::default(), OverflowBehavior::Clip);
    let unwa = Unwa::default();
    assert_eq!(unwa.layout, LayoutType::Column);
    assert_eq!(unwa.alignment, ContentAlignment::Start);
    assert_eq!(unwa.overflow, OverflowBehavior::Clip);
    assert_eq!(unwa.gap, 0);
    assert_eq!(unwa.padding, 0);
    assert_eq!(Layout::default(), Layout::Unwa(unwa));
    assert_eq!(
        Flex::default(),
        Flex {
            direction: FlexDirection::Row,
            justify: JustifyContent::Start,
            align: AlignItems::Stretch,
            gap: 0,
        }
    );
}

#[test]
fn both_layout_models_come_down_to_one_flow() {
    let boxed = Layout::Unwa(Unwa {
        layout: LayoutType::Row,
        alignment: ContentAlignment::SpaceBetween,
        overflow: OverflowBehavior::Wrap,
        gap: 4,
        padding: 9,
    })
    .flow();
    assert_eq!(boxed.kind, LayoutType::Row);
    assert_eq!(boxed.justify, JustifyContent::SpaceBetween);
    assert_eq!(boxed.align, AlignItems::Start);
    assert_eq!((boxed.gap, boxed.padding, boxed.wrap), (4, 9, true));

    let flexed = Layout::Flex(Flex {
        direction: FlexDirection::Column,
        justify: JustifyContent::SpaceEvenly,
        align: AlignItems::Center,
        gap: 6,
    })
    .flow();
    assert_eq!(flexed.kind, LayoutType::Column);
    assert_eq!(flexed.justify, JustifyContent::SpaceEvenly);
    assert_eq!(flexed.align, AlignItems::Center);
    assert_eq!((flexed.gap, flexed.padding, flexed.wrap), (6, 0, false));

    assert_eq!(ContentAlignment::Stretch.justify(), JustifyContent::Start);
    assert_eq!(ContentAlignment::Stretch.align(), AlignItems::Stretch);
    assert_eq!(ContentAlignment::End.justify(), JustifyContent::End);
    assert_eq!(ContentAlignment::End.align(), AlignItems::End);
    assert_eq!(ContentAlignment::Center.justify(), JustifyContent::Center);
}

#[test]
fn a_copy_keeps_the_identity_and_says_the_same() {
    let mut ids = IdGenerator::new();
    let a = rect(&mut ids, 5).color(Color::blue());
    let b = text(&mut ids, "b").layout_weight(2);
    let tree = container(&mut ids, Layout::default(), vec![a, b]).z_index(3);
    let copy = tree.clone();
    assert_eq!(format!("{:?}", copy), format!("{:?}", tree));
    assert_eq!(copy.id, ElementId(3));
    assert_eq!(ids.next, 4);
    assert!(matches!(ElementKind::default(), ElementKind::Empty));
}
