use firework::backend::{Diagnostic, Failure, ObjectId, Op, Outcome, Step};
use firework::element::{column_of, rect, text, Color, Element, ElementId, IdGenerator};
use firework::engine::layout;
use firework::geometry::{Geometry, ScaleFactor, Vector2};
use firework::moon_bridge::MoonBridge;
use firework::widget_tree::{update_tree, FireTree};

fn viewport() -> Geometry {
    Geometry { x: 0, y: 0, width: 600, height: 800 }
}

/// Answers every create step with a fresh handle and carries out the rest.
fn obliging(steps: &[Step], next_handle: &mut u64) -> Vec<Outcome> {
    let mut outcomes = Vec::new();
    for step in steps {
        match step.op {
            Op::CreateRect | Op::CreateText => {
                outcomes.push(Outcome::Created(ObjectId(*next_handle)));
                *next_handle += 1;
            }
            _ => outcomes.push(Outcome::Done),
        }
    }
    outcomes
}

fn frame(
    tree: &Element,
    retained: &mut FireTree,
    bridge: &MoonBridge,
    next_handle: &mut u64,
) -> Vec<Step> {
    let placements = layout(tree, viewport());
    let steps = update_tree(tree, &placements, retained, bridge);
    let outcomes = obliging(&steps, next_handle);
    let diagnostics = retained.commit(&steps, &outcomes);
    assert!(diagnostics.is_empty());
    steps
}

fn three_rects(first_id: u64) -> Element {
    let mut ids = IdGenerator::starting_at(first_id);
    let a = rect(&mut ids, 0);
    let b = rect(&mut ids, 4).color(Color::blue());
    let c = rect(&mut ids, 8).position(Vector2::new(30, 40));
    column_of(&mut ids, vec![a, b, c])
}

fn two_rects(first_id: u64) -> Element {
    let mut ids = IdGenerator::starting_at(first_id);
    let a = rect(&mut ids, 0);
    let b = rect(&mut ids, 4).color(Color::blue());
    column_of(&mut ids, vec![a, b])
}

#[test]
fn a_node_that_disappears_is_destroyed_once_and_forgotten() {
    let bridge = MoonBridge::new(ScaleFactor::identity());
    let mut retained = FireTree::new();
    let mut next_handle = 100;

    // Identities 5, 6 and 7 for the rectangles, 8 for the column.
    let first = three_rects(5);
    frame(&first, &mut retained, &bridge, &mut next_handle);
    assert!(retained.contains(ElementId(7)));
    let held = retained.handles_of(ElementId(7));
    assert_eq!(held, vec![ObjectId(102)]);

    // The same tree without the rectangle of identity 7.
    let mut second = two_rects(5);
    second.id = ElementId(8);
    let steps = frame(&second, &mut retained, &bridge, &mut next_handle);

    let destroys: Vec<&Step> =
        steps.iter().filter(|s| matches!(s.op, Op::Destroy { .. })).collect();
    assert_eq!(destroys.len(), 1);
    assert_eq!(
        *destroys[0],
        Step { element: ElementId(7), op: Op::Destroy { handle: ObjectId(102) } }
    );
    assert!(!retained.contains(ElementId(7)));
    assert!(retained.handles_of(ElementId(7)).is_empty());
    assert!(retained.contains(ElementId(5)));
    assert!(retained.contains(ElementId(6)));
}

#[test]
fn an_unchanged_tree_asks_for_nothing() {
    let bridge = MoonBridge::new(ScaleFactor::from_per_mille(2500));
    let mut retained = FireTree::new();
    let mut next_handle = 1;

    let first = three_rects(1);
    let steps = frame(&first, &mut retained, &bridge, &mut next_handle);
    assert!(steps.iter().any(|s| s.element == ElementId(3)));

    let second = three_rects(1);
    let steps = frame(&second, &mut retained, &bridge, &mut next_handle);
    assert!(steps.iter().all(|s| s.element != ElementId(3)));
    assert!(steps.is_empty());
}

#[test]
fn a_new_leaf_is_created_and_given_every_attribute() {
    let bridge = MoonBridge::new(ScaleFactor::from_per_mille(2000));
    let retained = FireTree::new();
    let mut ids = IdGenerator::new();
    let leaf = rect(&mut ids, 15).color(Color::blue()).position(Vector2::new(300, 200));
    let placements = layout(&leaf, viewport());
    let steps = update_tree(&leaf, &placements, &retained, &bridge);
    let id = ElementId(1);
    assert_eq!(
        steps,
        vec![
            Step { element: id, op: Op::CreateRect },
            Step { element: id, op: Op::SetPosition { x: 600, y: 400 } },
            Step { element: id, op: Op::SetSize { width: 200, height: 200 } },
            Step { element: id, op: Op::SetColor { color: Color::blue() } },
            Step {
                element: id,
                op: Op::SetRotation { angle: firework::element::Angle::Degrees(0) },
            },
            Step { element: id, op: Op::SetRoundedness { value: 15 } },
        ]
    );
}

#[test]
fn only_what_changed_is_set_again() {
    let bridge = MoonBridge::new(ScaleFactor::identity());
    let mut retained = FireTree::new();
    let mut next_handle = 1;

    let mut ids = IdGenerator::new();
    let first = text(&mut ids, "Version: 1");
    frame(&first, &mut retained, &bridge, &mut next_handle);

    let mut ids = IdGenerator::new();
    let second = text(&mut ids, "Version: 2").color(Color::white());
    let steps = frame(&second, &mut retained, &bridge, &mut next_handle);
    assert_eq!(
        steps,
        vec![
            Step { element: ElementId(1), op: Op::SetColor { color: Color::white() } },
            Step {
                element: ElementId(1),
                op: Op::SetTextContent { content: String::from("Version: 2") },
            },
        ]
    );
}

#[test]
fn a_refused_create_is_reported_and_tried_again() {
    let bridge = MoonBridge::new(ScaleFactor::identity());
    let mut retained = FireTree::new();
    let tree = two_rects(1);
    let placements = layout(&tree, viewport());

    let steps = update_tree(&tree, &placements, &retained, &bridge);
    let mut outcomes = Vec::new();
    for step in &steps {
        outcomes.push(match step.op {
            Op::CreateRect if step.element == ElementId(1) => Outcome::Failed,
            Op::CreateRect => Outcome::Created(ObjectId(9)),
            _ if step.element == ElementId(1) => Outcome::Failed,
            _ => Outcome::Done,
        });
    }
    let diagnostics = retained.commit(&steps, &outcomes);
    assert_eq!(diagnostics[0], Diagnostic { element: ElementId(1), failure: Failure::Create });
    assert!(diagnostics.iter().all(|d| d.element == ElementId(1)));
    assert!(!retained.contains(ElementId(1)));
    assert_eq!(retained.handles_of(ElementId(2)), vec![ObjectId(9)]);

    // The next frame creates the first rectangle again and leaves the second alone.
    let steps = update_tree(&tree, &placements, &retained, &bridge);
    assert_eq!(steps[0], Step { element: ElementId(1), op: Op::CreateRect });
    assert!(steps.iter().all(|s| s.element == ElementId(1)));
}

#[test]
fn a_retained_leaf_is_never_created_again() {
    let bridge = MoonBridge::new(ScaleFactor::identity());
    let mut retained = FireTree::new();
    let mut next_handle = 1;

    let first = three_rects(1);
    let steps = frame(&first, &mut retained, &bridge, &mut next_handle);
    let creates = steps.iter().filter(|s| s.op == Op::CreateRect).count();
    assert_eq!(creates, 3);

    // The same leaves, all of them changed.
    let mut ids = IdGenerator::starting_at(1);
    let a = rect(&mut ids, 1).color(Color::red());
    let b = rect(&mut ids, 2).color(Color::green());
    let c = rect(&mut ids, 3).position(Vector2::new(1, 1));
    let second = column_of(&mut ids, vec![c, a, b]);
    for _ in 0..3 {
        let steps = frame(&second, &mut retained, &bridge, &mut next_handle);
        assert!(steps.iter().all(|s| s.op != Op::CreateRect && s.op != Op::CreateText));
    }
    assert_eq!(next_handle, 4);
    assert_eq!(retained.len(), 3);
}
