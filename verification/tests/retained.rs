use firework::backend::{Diagnostic, Failure, ObjectId, Op, Outcome, Step};
use firework::element::{container, rect, text, Angle, Color, ElementId, IdGenerator};
use firework::engine::{layout, Placement};
use firework::geometry::{Geometry, ScaleFactor};
use firework::layout::Layout;
use firework::moon_bridge::MoonBridge;
use firework::widget_tree::{
    contains_id, process_element, update_tree, Attributes, FireTree, RetainedNode,
};

fn step(element: u64, op: Op) -> Step {
    Step { element: ElementId(element), op }
}

fn nothing_applied() -> Attributes {
    Attributes {
        position: None,
        size: None,
        color: None,
        rotation: None,
        roundedness: None,
        text: None,
        text_size: None,
    }
}

#[test]
fn a_new_tree_remembers_nothing() {
    let tree = FireTree::new();
    assert!(tree.nodes().is_empty());
    assert_eq!(tree.len(), 0);
    assert!(tree.get(ElementId(1)).is_none());
    assert!(!tree.contains(ElementId(1)));
    assert_eq!(tree.position_of(ElementId(1)), None);
    assert!(tree.handles_of(ElementId(1)).is_empty());
}

#[test]
fn a_created_object_is_remembered_under_its_node() {
    let mut tree = FireTree::new();
    assert_eq!(tree.apply_outcome(&step(4, Op::CreateRect), Outcome::Created(ObjectId(9))), None);
    assert_eq!(tree.apply_outcome(&step(6, Op::CreateText), Outcome::Created(ObjectId(3))), None);
    assert_eq!(
        tree.nodes(),
        vec![
            RetainedNode { id: ElementId(4), handles: vec![ObjectId(9)], applied: nothing_applied() },
            RetainedNode { id: ElementId(6), handles: vec![ObjectId(3)], applied: nothing_applied() },
        ]
    );
    assert_eq!(tree.position_of(ElementId(6)), Some(1));
    assert!(tree.contains(ElementId(4)));
    assert_eq!(tree.get(ElementId(6)).map(|node| node.handles.clone()), Some(vec![ObjectId(3)]));
    assert!(tree.get(ElementId(5)).is_none());

    // A second object for a node that holds one already joins the first.
    assert_eq!(tree.apply_outcome(&step(4, Op::CreateRect), Outcome::Created(ObjectId(10))), None);
    assert_eq!(tree.handles_of(ElementId(4)), vec![ObjectId(9), ObjectId(10)]);
    assert_eq!(tree.len(), 2);
}

#[test]
fn what_was_carried_out_is_noted_and_what_failed_is_reported() {
    let mut tree = FireTree::new();
    tree.apply_outcome(&step(1, Op::CreateText), Outcome::Created(ObjectId(1)));
    let sets = vec![
        Op::SetPosition { x: 3, y: -4 },
        Op::SetSize { width: 5, height: 6 },
        Op::SetColor { color: Color::red() },
        Op::SetRotation { angle: Angle::Degrees(90000) },
        Op::SetRoundedness { value: 7 },
        Op::SetTextContent { content: String::from("hello") },
        Op::SetTextSize { font_size: 16 },
    ];
    for op in sets {
        assert_eq!(tree.apply_outcome(&step(1, op), Outcome::Done), None);
    }
    assert_eq!(
        tree.nodes()[0].applied,
        Attributes {
            position: Some((3, -4)),
            size: Some((5, 6)),
            color: Some(Color::red()),
            rotation: Some(Angle::Degrees(90000)),
            roundedness: Some(7),
            text: Some(String::from("hello")),
            text_size: Some(16),
        }
    );

    let before = format!("{:?}", tree);
    assert_eq!(
        tree.apply_outcome(&step(1, Op::SetColor { color: Color::blue() }), Outcome::Failed),
        Some(Diagnostic { element: ElementId(1), failure: Failure::Update })
    );
    assert_eq!(
        tree.apply_outcome(&step(2, Op::CreateRect), Outcome::Failed),
        Some(Diagnostic { element: ElementId(2), failure: Failure::Create })
    );
    assert_eq!(
        tree.apply_outcome(&step(2, Op::CreateRect), Outcome::Done),
        Some(Diagnostic { element: ElementId(2), failure: Failure::Create })
    );
    assert_eq!(
        tree.apply_outcome(&step(1, Op::Destroy { handle: ObjectId(1) }), Outcome::Failed),
        Some(Diagnostic { element: ElementId(1), failure: Failure::Destroy })
    );
    assert_eq!(
        tree.apply_outcome(&step(1, Op::SetTextSize { font_size: 9 }), Outcome::Created(ObjectId(5))),
        Some(Diagnostic { element: ElementId(1), failure: Failure::Update })
    );
    // A set step for a node that is not retained changes nothing.
    assert_eq!(tree.apply_outcome(&step(8, Op::SetTextSize { font_size: 9 }), Outcome::Done), None);
    assert_eq!(format!("{:?}", tree), before);
}

#[test]
fn forgetting_removes_the_node_whatever_became_of_its_objects() {
    let mut tree = FireTree::new();
    tree.apply_outcome(&step(1, Op::CreateRect), Outcome::Created(ObjectId(11)));
    tree.apply_outcome(&step(2, Op::CreateRect), Outcome::Created(ObjectId(12)));
    tree.apply_outcome(&step(3, Op::CreateRect), Outcome::Created(ObjectId(13)));
    assert_eq!(tree.apply_outcome(&step(2, Op::Destroy { handle: ObjectId(12) }), Outcome::Done), None);
    assert!(tree.contains(ElementId(2)));
    assert_eq!(tree.apply_outcome(&step(2, Op::Forget), Outcome::Failed), None);
    assert!(!tree.contains(ElementId(2)));
    assert_eq!(tree.position_of(ElementId(1)), Some(0));
    assert_eq!(tree.position_of(ElementId(3)), Some(1));
    assert_eq!(tree.apply_outcome(&step(2, Op::Forget), Outcome::Done), None);
    assert_eq!(tree.len(), 2);
}

#[test]
fn a_step_without_an_outcome_counts_as_failed() {
    let mut tree = FireTree::new();
    let steps = vec![
        step(1, Op::CreateRect),
        step(1, Op::SetColor { color: Color::white() }),
        step(2, Op::CreateRect),
        step(3, Op::Forget),
    ];
    let diagnostics = tree.commit(&steps, &vec![Outcome::Created(ObjectId(5)), Outcome::Done]);
    assert_eq!(diagnostics, vec![Diagnostic { element: ElementId(2), failure: Failure::Create }]);
    assert_eq!(tree.len(), 1);
    assert_eq!(tree.nodes()[0].applied.color, Some(Color::white()));
}

#[test]
fn an_identity_is_looked_for_in_the_whole_tree() {
    let mut ids = IdGenerator::new();
    let a = rect(&mut ids, 0);
    let b = text(&mut ids, "b");
    let inner = container(&mut ids, Layout::default(), vec![b]);
    let tree = container(&mut ids, Layout::default(), vec![a, inner]);
    for id in 1..=4 {
        assert!(contains_id(&tree, ElementId(id)));
    }
    assert!(!contains_id(&tree, ElementId(5)));
    assert!(!contains_id(&tree, ElementId(0)));
}

#[test]
fn containers_and_empty_nodes_ask_for_nothing_themselves() {
    let mut ids = IdGenerator::new();
    let empty = firework::element::Element::new(&mut ids);
    let inner = container(&mut ids, Layout::default(), vec![]);
    let tree = container(&mut ids, Layout::default(), vec![empty, inner]);
    let placements = layout(&tree, Geometry { x: 0, y: 0, width: 600, height: 800 });
    assert_eq!(placements.len(), 2);
    let bridge = MoonBridge::new(ScaleFactor::identity());
    assert!(update_tree(&tree, &placements, &FireTree::new(), &bridge).is_empty());
}

#[test]
fn a_leaf_without_a_box_is_created_but_not_placed() {
    let mut ids = IdGenerator::new();
    let leaf = text(&mut ids, "hidden");
    let bridge = MoonBridge::new(ScaleFactor::identity());
    let mut steps = vec![step(77, Op::Forget)];
    process_element(&leaf, &vec![], &FireTree::new(), &bridge, &mut steps);
    assert_eq!(
        steps,
        vec![
            step(77, Op::Forget),
            step(1, Op::CreateText),
            step(1, Op::SetColor { color: Color::black() }),
            step(1, Op::SetRotation { angle: Angle::Degrees(0) }),
            step(1, Op::SetTextContent { content: String::from("hidden") }),
            step(1, Op::SetTextSize { font_size: 16 }),
        ]
    );
}

#[test]
fn a_moved_leaf_is_placed_again_and_nothing_else() {
    let mut ids = IdGenerator::new();
    let leaf = rect(&mut ids, 0);
    let bridge = MoonBridge::new(ScaleFactor::from_per_mille(1500));
    let mut tree = FireTree::new();
    let at = |x: i64| vec![Placement { id: ElementId(1), geometry: Geometry { x, y: 0, width: 10, height: 10 } }];

    let steps = update_tree(&leaf, &at(0), &tree, &bridge);
    let outcomes: Vec<Outcome> = steps
        .iter()
        .map(|s| match s.op {
            Op::CreateRect => Outcome::Created(ObjectId(1)),
            _ => Outcome::Done,
        })
        .collect();
    assert!(tree.commit(&steps, &outcomes).is_empty());
    assert_eq!(tree.nodes()[0].applied.size, Some((15, 15)));

    assert_eq!(
        update_tree(&leaf, &at(10), &tree, &bridge),
        vec![step(1, Op::SetPosition { x: 15, y: 0 })]
    );
    let wider = MoonBridge::new(ScaleFactor::from_per_mille(2000));
    assert_eq!(
        update_tree(&leaf, &at(0), &tree, &wider),
        vec![step(1, Op::SetSize { width: 20, height: 20 })]
    );
}

#[test]
fn what_is_gone_is_let_go_in_the_order_of_creation() {
    let mut tree = FireTree::new();
    tree.apply_outcome(&step(1, Op::CreateRect), Outcome::Created(ObjectId(11)));
    tree.apply_outcome(&step(2, Op::CreateRect), Outcome::Created(ObjectId(12)));
    tree.apply_outcome(&step(2, Op::CreateRect), Outcome::Created(ObjectId(13)));
    tree.apply_outcome(&step(3, Op::CreateRect), Outcome::Created(ObjectId(14)));

    let mut ids = IdGenerator::starting_at(3);
    let survivor = rect(&mut ids, 0);
    let placements = layout(&survivor, Geometry { x: 0, y: 0, width: 10, height: 10 });
    let bridge = MoonBridge::new(ScaleFactor::identity());
    let steps = update_tree(&survivor, &placements, &tree, &bridge);
    let removal: Vec<&Step> = steps.iter().filter(|s| s.element != ElementId(3)).collect();
    assert_eq!(
        removal,
        vec![
            &step(1, Op::Destroy { handle: ObjectId(11) }),
            &step(1, Op::Forget),
            &step(2, Op::Destroy { handle: ObjectId(12) }),
            &step(2, Op::Destroy { handle: ObjectId(13) }),
            &step(2, Op::Forget),
        ]
    );
    let refused: Vec<Outcome> = steps.iter().map(|_| Outcome::Failed).collect();
    let diagnostics = tree.commit(&steps, &refused);
    assert!(diagnostics.contains(&Diagnostic { element: ElementId(2), failure: Failure::Destroy }));
    assert_eq!(tree.len(), 1);
    assert_eq!(tree.nodes()[0].id, ElementId(3));
}

#[test]
fn a_step_is_carried_out_if_every_object_accepted_it() {
    assert_eq!(Outcome::of_calls(&vec![true]), Outcome::Done);
    assert_eq!(Outcome::of_calls(&vec![true, true, true]), Outcome::Done);
    assert_eq!(Outcome::of_calls(&vec![true, false, true]), Outcome::Failed);
    assert_eq!(Outcome::of_calls(&vec![false]), Outcome::Failed);
    assert_eq!(Outcome::of_calls(&vec![]), Outcome::Failed);
    assert_eq!(Outcome::of_call(true), Outcome::Done);
    assert_eq!(Outcome::of_call(false), Outcome::Failed);
    assert_eq!(Outcome::of_create(Some(ObjectId(4))), Outcome::Created(ObjectId(4)));
    assert_eq!(Outcome::of_create(None), Outcome::Failed);
}
