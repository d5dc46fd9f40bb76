//! The retained tree and the reconciler.
//!
//! The retained tree remembers, for every leaf that the backend shows, the
//! objects that stand for it and the attributes that were applied to them
//! last.  It is a hash map from identities to nodes, together with the
//! identities in the order in which the nodes were created.  Each frame the reconciler compares the new element tree with it
//! and lists the steps that bring the backend up to date: a create step for
//! every leaf that is new, a set step for every attribute that differs from
//! what was applied, and destroy steps for every leaf that is gone.  The
//! retained tree itself changes only as the outcomes of the steps come in.

use vstd::prelude::*;
use std::collections::HashMap;
use crate::backend::{report, Diagnostic, ObjectId, Op, Outcome, Step};
use crate::element::{white, Angle, Color, Element, ElementId, ElementKind};
use crate::engine::{find_geometry, geometry_of, Placement};
use crate::geometry::{scaled_coordinate, scaled_length, Geometry};
use crate::moon_bridge::MoonBridge;

verus! {

/// The attributes that were applied to the objects of a node.  An attribute
/// that was never applied is `None`.
#[derive(Debug, PartialEq, Eq)]
pub struct Attributes {
    /// In pixels.
    pub position: Option<(i64, i64)>,
    /// In pixels.
    pub size: Option<(u64, u64)>,
    pub color: Option<Color>,
    pub rotation: Option<Angle>,
    pub roundedness: Option<i8>,
    pub text: Option<String>,
    pub text_size: Option<u32>,
}

/// What is remembered of one leaf.
#[derive(Debug, PartialEq, Eq)]
pub struct RetainedNode {
    pub id: ElementId,
    /// The objects that stand for the leaf, in the order of their creation.
    pub handles: Vec<ObjectId>,
    pub applied: Attributes,
}

/// [`RetainedNode`] as a mathematical value.
pub struct RetainedView {
    pub id: ElementId,
    pub handles: Seq<ObjectId>,
    pub applied: Attributes,
}

impl View for RetainedNode {
    type V = RetainedView;

    open spec fn view(&self) -> RetainedView {
        RetainedView { id: self.id, handles: self.handles@, applied: self.applied }
    }
}

/// The nodes by the number of their identity, and the identities in the
/// order in which the nodes were created.
#[derive(Debug)]
struct Store {
    tree: HashMap<u64, RetainedNode>,
    order: Vec<ElementId>,
}

/// The retained tree: what is remembered of the leaves that the backend
/// shows.  A node is found by its identity in one step; the nodes are also
/// kept in the order in which they were created, so that what a frame asks
/// for does not depend on the order in which a hash map is walked.
#[derive(Debug)]
pub struct FireTree {
    store: Store,
}

/// Every identity in `order` has its node in `tree`, under its own number,
/// and there is no other node and no identity twice.
spec fn well_formed(tree: Map<u64, RetainedNode>, order: Seq<ElementId>) -> bool {
    &&& forall|i: int, j: int| 0 <= i < j < order.len() ==> order[i] != order[j]
    &&& forall|i: int| 0 <= i < order.len() ==> tree.contains_key((#[trigger] order[i]).0)
    &&& forall|key: u64| #[trigger]
        tree.contains_key(key) ==> tree[key].id == ElementId(key) && exists|i: int|
            0 <= i < order.len() && #[trigger] order[i] == ElementId(key)
}

/// The nodes in the order of their creation.
spec fn listed(tree: Map<u64, RetainedNode>, order: Seq<ElementId>) -> Seq<RetainedView> {
    Seq::new(order.len(), |i: int| tree[order[i].0]@)
}

impl FireTree {
    #[verifier::type_invariant]
    spec fn wf(&self) -> bool {
        well_formed(self.store.tree@, self.store.order@)
    }
}

impl View for FireTree {
    type V = Seq<RetainedView>;

    /// The nodes in the order of their creation.
    closed spec fn view(&self) -> Seq<RetainedView> {
        listed(self.store.tree@, self.store.order@)
    }
}

/// No attribute applied.
pub open spec fn blank_attributes() -> Attributes {
    Attributes {
        position: None,
        size: None,
        color: None,
        rotation: None,
        roundedness: None,
        text: None,
        text_size: None,
    }
}

/// The index of the first node at or after `from` that has the identity `id`.
pub open spec fn find_from(nodes: Seq<RetainedView>, id: ElementId, from: int) -> Option<int>
    decreases nodes.len() - from,
{
    if from < 0 || from >= nodes.len() {
        None
    } else if nodes[from].id == id {
        Some(from)
    } else {
        find_from(nodes, id, from + 1)
    }
}

/// The index of the first node that has the identity `id`.
pub open spec fn find(nodes: Seq<RetainedView>, id: ElementId) -> Option<int> {
    find_from(nodes, id, 0)
}

/// What was applied to the node of identity `id`, if it is retained.
pub open spec fn attributes_of(nodes: Seq<RetainedView>, id: ElementId) -> Option<Attributes> {
    match find(nodes, id) {
        Some(k) => Some(nodes[k].applied),
        None => None,
    }
}

/// No identity occurs twice.
pub open spec fn distinct(nodes: Seq<RetainedView>) -> bool {
    forall|i: int, j: int|
        0 <= i < j < nodes.len() ==> (#[trigger] nodes[i]).id != (#[trigger] nodes[j]).id
}

/// The colour in which a leaf is drawn: its own, else white.
pub open spec fn color_of(e: Element) -> Color {
    match e.color {
        Some(c) => c,
        None => white(),
    }
}

/// The rotation of a leaf: its own, else none.
pub open spec fn rotation_of(e: Element) -> Angle {
    match e.rotation {
        Some(a) => a,
        None => Angle::Degrees(0),
    }
}

/// The position in pixels of a box under the given scale.
pub open spec fn pixel_position(g: Geometry, per_mille: int) -> (i64, i64) {
    (scaled_coordinate(g.x as int, per_mille) as i64, scaled_coordinate(g.y as int, per_mille) as i64)
}

/// The size in pixels of a box under the given scale.
pub open spec fn pixel_size(g: Geometry, per_mille: int) -> (u64, u64) {
    (
        scaled_length(g.width as int, per_mille) as u64,
        scaled_length(g.height as int, per_mille) as u64,
    )
}

/// The text `content` is the one that was applied.
pub open spec fn same_text(applied: Option<String>, content: String) -> bool {
    applied matches Some(t) && t@ == content@
}

/// The step that moves the objects of a leaf, where its box is known and
/// they are not there already.
pub open spec fn position_steps(
    id: ElementId,
    geometry: Option<Geometry>,
    applied: Attributes,
    per_mille: int,
) -> Seq<Step> {
    match geometry {
        Some(g) => if applied.position == Some(pixel_position(g, per_mille)) {
            Seq::empty()
        } else {
            seq![
                Step {
                    element: id,
                    op: Op::SetPosition {
                        x: pixel_position(g, per_mille).0,
                        y: pixel_position(g, per_mille).1,
                    },
                },
            ]
        },
        None => Seq::empty(),
    }
}

/// The step that sizes the objects of a leaf, where its box is known and
/// they do not have that size already.
pub open spec fn size_steps(
    id: ElementId,
    geometry: Option<Geometry>,
    applied: Attributes,
    per_mille: int,
) -> Seq<Step> {
    match geometry {
        Some(g) => if applied.size == Some(pixel_size(g, per_mille)) {
            Seq::empty()
        } else {
            seq![
                Step {
                    element: id,
                    op: Op::SetSize {
                        width: pixel_size(g, per_mille).0,
                        height: pixel_size(g, per_mille).1,
                    },
                },
            ]
        },
        None => Seq::empty(),
    }
}

/// The step that colours the objects of a leaf, unless they have the colour.
pub open spec fn color_steps(e: Element, applied: Attributes) -> Seq<Step> {
    if applied.color == Some(color_of(e)) {
        Seq::empty()
    } else {
        seq![Step { element: e.id, op: Op::SetColor { color: color_of(e) } }]
    }
}

/// The step that rotates the objects of a leaf, unless they are so rotated.
pub open spec fn rotation_steps(e: Element, applied: Attributes) -> Seq<Step> {
    if applied.rotation == Some(rotation_of(e)) {
        Seq::empty()
    } else {
        seq![Step { element: e.id, op: Op::SetRotation { angle: rotation_of(e) } }]
    }
}

/// The steps for what only one kind of leaf has: the roundedness of a
/// rectangle, the content and the size of a text.
pub open spec fn kind_steps(e: Element, applied: Attributes) -> Seq<Step> {
    match e.kind {
        ElementKind::Rect { roundedness } => if applied.roundedness == Some(roundedness) {
            Seq::empty()
        } else {
            seq![Step { element: e.id, op: Op::SetRoundedness { value: roundedness } }]
        },
        ElementKind::Text { content, font_size } => (if same_text(applied.text, content) {
            Seq::empty()
        } else {
            seq![Step { element: e.id, op: Op::SetTextContent { content } }]
        }) + (if applied.text_size == Some(font_size) {
            Seq::empty()
        } else {
            seq![Step { element: e.id, op: Op::SetTextSize { font_size } }]
        }),
        _ => Seq::empty(),
    }
}

/// The steps that bring the objects of a leaf from what was applied to
/// what the leaf asks for now: one for every attribute that differs, in the
/// order position, size, colour, rotation, then what its kind has.
pub open spec fn changes(
    e: Element,
    geometry: Option<Geometry>,
    applied: Attributes,
    per_mille: int,
) -> Seq<Step> {
    position_steps(e.id, geometry, applied, per_mille) + size_steps(
        e.id,
        geometry,
        applied,
        per_mille,
    ) + color_steps(e, applied) + rotation_steps(e, applied) + kind_steps(e, applied)
}

/// The step that creates the object of a leaf.
pub open spec fn create_step(e: Element) -> Step {
    Step {
        element: e.id,
        op: if e.kind is Text {
            Op::CreateText
        } else {
            Op::CreateRect
        },
    }
}

/// The steps for one leaf.  A leaf that is retained gets its changes; one
/// that is not is created and gets every attribute.
pub open spec fn leaf_steps(
    e: Element,
    geometry: Option<Geometry>,
    retained: Option<Attributes>,
    per_mille: int,
) -> Seq<Step> {
    match retained {
        Some(applied) => changes(e, geometry, applied, per_mille),
        None => seq![create_step(e)] + changes(e, geometry, blank_attributes(), per_mille),
    }
}

/// The steps for a node and everything below it: a container asks for
/// nothing itself and hands on to its children, first to last.
pub open spec fn node_steps(
    e: Element,
    placements: Seq<Placement>,
    nodes: Seq<RetainedView>,
    per_mille: int,
) -> Seq<Step>
    decreases e,
{
    match e.kind {
        ElementKind::Container { children, .. } => children_steps(
            children@,
            placements,
            nodes,
            per_mille,
            0,
        ),
        ElementKind::Empty => Seq::empty(),
        _ => leaf_steps(e, geometry_of(placements, e.id), attributes_of(nodes, e.id), per_mille),
    }
}

/// The steps for the children from `from` on.
pub open spec fn children_steps(
    cs: Seq<Element>,
    placements: Seq<Placement>,
    nodes: Seq<RetainedView>,
    per_mille: int,
    from: int,
) -> Seq<Step>
    decreases cs, cs.len() - from,
{
    if 0 <= from < cs.len() {
        node_steps(cs[from], placements, nodes, per_mille) + children_steps(
            cs,
            placements,
            nodes,
            per_mille,
            from + 1,
        )
    } else {
        Seq::empty()
    }
}

/// The identity `id` occurs in the tree below `e`, `e` included.
pub open spec fn has_id(e: Element, id: ElementId) -> bool
    decreases e,
{
    e.id == id || match e.kind {
        ElementKind::Container { children, .. } => any_has_id(children@, id, 0),
        _ => false,
    }
}

/// The identity `id` occurs below one of the children from `from` on.
pub open spec fn any_has_id(cs: Seq<Element>, id: ElementId, from: int) -> bool
    decreases cs, cs.len() - from,
{
    if 0 <= from < cs.len() {
        has_id(cs[from], id) || any_has_id(cs, id, from + 1)
    } else {
        false
    }
}

/// The destroy steps for the first `upto` objects of a node.
pub open spec fn destroy_steps(node: RetainedView, upto: int) -> Seq<Step> {
    Seq::new(
        upto as nat,
        |j: int| Step { element: node.id, op: Op::Destroy { handle: node.handles[j] } },
    )
}

/// The steps that let go of a node: one destroy step for each of its
/// objects, in order, and then the step that forgets the node.
pub open spec fn release_steps(node: RetainedView) -> Seq<Step> {
    destroy_steps(node, node.handles.len() as int).push(Step { element: node.id, op: Op::Forget })
}

/// The steps that let go of every node from `from` on whose identity does
/// not occur in the tree below `root`.
pub open spec fn removal_steps(nodes: Seq<RetainedView>, root: Element, from: int) -> Seq<Step>
    decreases nodes.len() - from,
{
    if from < 0 || from >= nodes.len() {
        Seq::empty()
    } else {
        (if has_id(root, nodes[from].id) {
            Seq::empty()
        } else {
            release_steps(nodes[from])
        }) + removal_steps(nodes, root, from + 1)
    }
}

/// The steps of one frame: those for the new tree, parents before children
/// and siblings first to last, then those that let go of what is gone.
pub open spec fn plan(
    root: Element,
    placements: Seq<Placement>,
    nodes: Seq<RetainedView>,
    per_mille: int,
) -> Seq<Step> {
    node_steps(root, placements, nodes, per_mille) + removal_steps(nodes, root, 0)
}

/// The attributes after a step was carried out.
pub open spec fn record(applied: Attributes, op: Op) -> Attributes {
    match op {
        Op::SetPosition { x, y } => Attributes { position: Some((x, y)), ..applied },
        Op::SetSize { width, height } => Attributes { size: Some((width, height)), ..applied },
        Op::SetColor { color } => Attributes { color: Some(color), ..applied },
        Op::SetRotation { angle } => Attributes { rotation: Some(angle), ..applied },
        Op::SetRoundedness { value } => Attributes { roundedness: Some(value), ..applied },
        Op::SetTextContent { content } => Attributes { text: Some(content), ..applied },
        Op::SetTextSize { font_size } => Attributes { text_size: Some(font_size), ..applied },
        _ => applied,
    }
}

/// The retained tree after a step with the given outcome.
///
/// A created object is remembered under its node, which is new unless the
/// node holds objects already.  A set step that was carried out is noted in
/// what was applied to the node.  A forget step removes the node, whatever
/// became of its objects.  Everything else, a failed step above all, leaves
/// the tree as it is.
pub open spec fn after(nodes: Seq<RetainedView>, step: Step, outcome: Outcome) -> Seq<RetainedView> {
    match find(nodes, step.element) {
        Some(k) => match step.op {
            Op::Forget => nodes.remove(k),
            Op::Destroy { .. } => nodes,
            Op::CreateRect | Op::CreateText => match outcome {
                Outcome::Created(h) => nodes.update(
                    k,
                    RetainedView { handles: nodes[k].handles.push(h), ..nodes[k] },
                ),
                _ => nodes,
            },
            _ => match outcome {
                Outcome::Done => nodes.update(
                    k,
                    RetainedView { applied: record(nodes[k].applied, step.op), ..nodes[k] },
                ),
                _ => nodes,
            },
        },
        None => match step.op {
            Op::CreateRect | Op::CreateText => match outcome {
                Outcome::Created(h) => nodes.push(
                    RetainedView {
                        id: step.element,
                        handles: seq![h],
                        applied: blank_attributes(),
                    },
                ),
                _ => nodes,
            },
            _ => nodes,
        },
    }
}

/// The retained tree after the first `upto` steps with their outcomes.  A
/// step without an outcome counts as failed.
pub open spec fn replay(
    nodes: Seq<RetainedView>,
    steps: Seq<Step>,
    outcomes: Seq<Outcome>,
    upto: int,
) -> Seq<RetainedView>
    decreases upto,
{
    if upto <= 0 {
        nodes
    } else {
        after(
            replay(nodes, steps, outcomes, upto - 1),
            steps[upto - 1],
            outcome_at(outcomes, upto - 1),
        )
    }
}

/// The outcome of step `i`, or failure where none was reported.
pub open spec fn outcome_at(outcomes: Seq<Outcome>, i: int) -> Outcome {
    if 0 <= i < outcomes.len() {
        outcomes[i]
    } else {
        Outcome::Failed
    }
}

/// What is reported of the first `upto` steps: the refusals, in order.
pub open spec fn reports(steps: Seq<Step>, outcomes: Seq<Outcome>, upto: int) -> Seq<Diagnostic>
    decreases upto,
{
    if upto <= 0 {
        Seq::empty()
    } else {
        match report(steps[upto - 1], outcome_at(outcomes, upto - 1)) {
            Some(d) => reports(steps, outcomes, upto - 1).push(d),
            None => reports(steps, outcomes, upto - 1),
        }
    }
}

/// See [`has_id`].
pub fn contains_id(e: &Element, id: ElementId) -> (found: bool)
    ensures
        found == has_id(*e, id),
    decreases *e,
{
    if e.id.0 == id.0 {
        return true;
    }
    match &e.kind {
        ElementKind::Container { children, .. } => {
            let mut i: usize = 0;
            while i < children.len()
                invariant
                    i <= children.len(),
                    e.kind is Container,
                    e.kind->children == *children,
                    any_has_id(children@, id, 0) == any_has_id(children@, id, i as int),
                decreases children.len() - i,
            {
                if contains_id(&children[i], id) {
                    return true;
                }
                i += 1;
            }
            false
        },
        _ => false,
    }
}

/// See [`position_steps`].
fn push_position(
    id: ElementId,
    geometry: Option<Geometry>,
    applied: &Attributes,
    bridge: &MoonBridge,
    steps: &mut Vec<Step>,
)
    ensures
        final(steps)@ == old(steps)@ + position_steps(
            id,
            geometry,
            *applied,
            bridge.scale_factor.per_mille as int,
        ),
{
    let ghost before = steps@;
    match geometry {
        Some(g) => {
            let x: i64 = bridge.scale_factor.scale_coordinate(g.x);
            let y: i64 = bridge.scale_factor.scale_coordinate(g.y);
            let same: bool = match applied.position {
                Some(p) => p.0 == x && p.1 == y,
                None => false,
            };
            if !same {
                steps.push(Step { element: id, op: bridge.config_position_dp(g.x, g.y) });
            }
        },
        None => {},
    }
    assert(steps@ =~= before + position_steps(
        id,
        geometry,
        *applied,
        bridge.scale_factor.per_mille as int,
    ));
}

/// See [`size_steps`].
fn push_size(
    id: ElementId,
    geometry: Option<Geometry>,
    applied: &Attributes,
    bridge: &MoonBridge,
    steps: &mut Vec<Step>,
)
    ensures
        final(steps)@ == old(steps)@ + size_steps(
            id,
            geometry,
            *applied,
            bridge.scale_factor.per_mille as int,
        ),
{
    let ghost before = steps@;
    match geometry {
        Some(g) => {
            let width: u64 = bridge.scale_factor.scale_length(g.width);
            let height: u64 = bridge.scale_factor.scale_length(g.height);
            let same: bool = match applied.size {
                Some(s) => s.0 == width && s.1 == height,
                None => false,
            };
            if !same {
                steps.push(Step { element: id, op: bridge.config_size_dp(g.width, g.height) });
            }
        },
        None => {},
    }
    assert(steps@ =~= before + size_steps(
        id,
        geometry,
        *applied,
        bridge.scale_factor.per_mille as int,
    ));
}

/// See [`color_steps`].
fn push_color(e: &Element, applied: &Attributes, steps: &mut Vec<Step>)
    ensures
        final(steps)@ == old(steps)@ + color_steps(*e, *applied),
{
    let ghost before = steps@;
    let color: Color = match e.color {
        Some(c) => c,
        None => Color::white(),
    };
    let same: bool = match applied.color {
        Some(c) => c == color,
        None => false,
    };
    if !same {
        steps.push(Step { element: e.id, op: Op::SetColor { color } });
    }
    assert(steps@ =~= before + color_steps(*e, *applied));
}

/// See [`rotation_steps`].
fn push_rotation(e: &Element, applied: &Attributes, steps: &mut Vec<Step>)
    ensures
        final(steps)@ == old(steps)@ + rotation_steps(*e, *applied),
{
    let ghost before = steps@;
    let angle: Angle = match e.rotation {
        Some(a) => a,
        None => Angle::Degrees(0),
    };
    let same: bool = match applied.rotation {
        Some(a) => a == angle,
        None => false,
    };
    if !same {
        steps.push(Step { element: e.id, op: Op::SetRotation { angle } });
    }
    assert(steps@ =~= before + rotation_steps(*e, *applied));
}

/// See [`kind_steps`].
fn push_kind(e: &Element, applied: &Attributes, steps: &mut Vec<Step>)
    ensures
        final(steps)@ == old(steps)@ + kind_steps(*e, *applied),
{
    let ghost before = steps@;
    match &e.kind {
        ElementKind::Rect { roundedness } => {
            let same: bool = match applied.roundedness {
                Some(r) => r == *roundedness,
                None => false,
            };
            if !same {
                steps.push(Step { element: e.id, op: Op::SetRoundedness { value: *roundedness } });
            }
        },
        ElementKind::Text { content, font_size } => {
            let same: bool = match &applied.text {
                Some(t) => *t == *content,
                None => false,
            };
            if !same {
                steps.push(Step { element: e.id, op: Op::SetTextContent { content: content.clone() } });
            }
            let same_size: bool = match applied.text_size {
                Some(v) => v == *font_size,
                None => false,
            };
            if !same_size {
                steps.push(Step { element: e.id, op: Op::SetTextSize { font_size: *font_size } });
            }
        },
        _ => {},
    }
    assert(steps@ =~= before + kind_steps(*e, *applied));
}

/// Appends the steps that bring a leaf from `applied` to what it asks for.
fn push_changes(
    e: &Element,
    geometry: Option<Geometry>,
    applied: &Attributes,
    bridge: &MoonBridge,
    steps: &mut Vec<Step>,
)
    ensures
        final(steps)@ == old(steps)@ + changes(
            *e,
            geometry,
            *applied,
            bridge.scale_factor.per_mille as int,
        ),
{
    let ghost before = steps@;
    push_position(e.id, geometry, applied, bridge, steps);
    push_size(e.id, geometry, applied, bridge, steps);
    push_color(e, applied, steps);
    push_rotation(e, applied, steps);
    push_kind(e, applied, steps);
    assert(steps@ =~= before + changes(
        *e,
        geometry,
        *applied,
        bridge.scale_factor.per_mille as int,
    ));
}

/// Appends the steps for the node `element` and everything below it.
pub fn process_element(
    element: &Element,
    placements: &Vec<Placement>,
    render_tree: &FireTree,
    bridge: &MoonBridge,
    steps: &mut Vec<Step>,
)
    ensures
        final(steps)@ == old(steps)@ + node_steps(
            *element,
            placements@,
            render_tree@,
            bridge.scale_factor.per_mille as int,
        ),
    decreases *element,
{
    let ghost before = steps@;
    let ghost per_mille = bridge.scale_factor.per_mille as int;
    match &element.kind {
        ElementKind::Container { children, .. } => {
            let mut i: usize = 0;
            assert(steps@ =~= before);
            while i < children.len()
                invariant
                    i <= children.len(),
                    element.kind is Container,
                    element.kind->children == *children,
                    steps@ + children_steps(children@, placements@, render_tree@, per_mille, i as int)
                        == before + children_steps(
                        children@,
                        placements@,
                        render_tree@,
                        per_mille,
                        0,
                    ),
                    per_mille == bridge.scale_factor.per_mille as int,
                decreases children.len() - i,
            {
                let ghost so_far = steps@;
                process_element(&children[i], placements, render_tree, bridge, steps);
                assert(steps@ + children_steps(
                    children@,
                    placements@,
                    render_tree@,
                    per_mille,
                    i + 1,
                ) =~= so_far + children_steps(
                    children@,
                    placements@,
                    render_tree@,
                    per_mille,
                    i as int,
                ));
                i += 1;
            }
            assert(steps@ =~= steps@ + children_steps(
                children@,
                placements@,
                render_tree@,
                per_mille,
                i as int,
            ));
        },
        ElementKind::Empty => {
            assert(steps@ =~= before + node_steps(*element, placements@, render_tree@, per_mille));
        },
        _ => {
            let geometry = find_geometry(placements, element.id);
            match render_tree.get(element.id) {
                Some(node) => {
                    push_changes(element, geometry, &node.applied, bridge, steps);
                },
                None => {
                    let op = match &element.kind {
                        ElementKind::Text { .. } => Op::CreateText,
                        _ => Op::CreateRect,
                    };
                    steps.push(Step { element: element.id, op });
                    let blank = Attributes {
                        position: None,
                        size: None,
                        color: None,
                        rotation: None,
                        roundedness: None,
                        text: None,
                        text_size: None,
                    };
                    push_changes(element, geometry, &blank, bridge, steps);
                    assert(steps@ =~= before + (seq![create_step(*element)] + changes(
                        *element,
                        geometry,
                        blank_attributes(),
                        per_mille,
                    )));
                },
            }
        },
    }
}

/// The steps of one frame.
///
/// `root_element` is the new tree, `placements` its layout, `render_tree`
/// what the backend shows now and `bridge` the scale under which it shows
/// it.  The steps come in the order in which they are to be carried out.
pub fn update_tree(
    root_element: &Element,
    placements: &Vec<Placement>,
    render_tree: &FireTree,
    bridge: &MoonBridge,
) -> (steps: Vec<Step>)
    ensures
        steps@ == plan(
            *root_element,
            placements@,
            render_tree@,
            bridge.scale_factor.per_mille as int,
        ),
{
    let ghost per_mille = bridge.scale_factor.per_mille as int;
    let mut steps: Vec<Step> = Vec::new();
    process_element(root_element, placements, render_tree, bridge, &mut steps);
    let ghost walked = steps@;
    assert(walked =~= node_steps(*root_element, placements@, render_tree@, per_mille));
    proof {
        use_type_invariant(render_tree);
    }
    let tree = &render_tree.store.tree;
    let order = &render_tree.store.order;
    let mut i: usize = 0;
    while i < order.len()
        invariant
            i <= order.len(),
            well_formed(tree@, order@),
            render_tree@ == listed(tree@, order@),
            steps@ + removal_steps(render_tree@, *root_element, i as int) == walked + removal_steps(
                render_tree@,
                *root_element,
                0,
            ),
        decreases order.len() - i,
    {
        let ghost so_far = steps@;
        match tree.get(&order[i].0) {
            Some(node) => {
                assert(render_tree@[i as int] == node@);
                if !contains_id(root_element, node.id) {
                    let mut j: usize = 0;
                    while j < node.handles.len()
                        invariant
                            j <= node.handles.len(),
                            steps@ == so_far + destroy_steps(node@, j as int),
                        decreases node.handles.len() - j,
                    {
                        steps.push(
                            Step { element: node.id, op: Op::Destroy { handle: node.handles[j] } },
                        );
                        assert(steps@ =~= so_far + destroy_steps(node@, j + 1));
                        j += 1;
                    }
                    steps.push(Step { element: node.id, op: Op::Forget });
                    assert(steps@ =~= so_far + release_steps(node@));
                }
            },
            None => {
                assert(false);
            },
        }
        assert(steps@ + removal_steps(render_tree@, *root_element, i + 1) =~= so_far
            + removal_steps(render_tree@, *root_element, i as int));
        i += 1;
    }
    assert(steps@ =~= steps@ + removal_steps(render_tree@, *root_element, i as int));
    steps
}

/// Notes in `applied` that a step was carried out.
fn record_op(applied: &mut Attributes, op: &Op)
    ensures
        *final(applied) == record(*old(applied), *op),
{
    match op {
        Op::SetPosition { x, y } => {
            applied.position = Some((*x, *y));
        },
        Op::SetSize { width, height } => {
            applied.size = Some((*width, *height));
        },
        Op::SetColor { color } => {
            applied.color = Some(*color);
        },
        Op::SetRotation { angle } => {
            applied.rotation = Some(*angle);
        },
        Op::SetRoundedness { value } => {
            applied.roundedness = Some(*value);
        },
        Op::SetTextContent { content } => {
            applied.text = Some(content.clone());
        },
        Op::SetTextSize { font_size } => {
            applied.text_size = Some(*font_size);
        },
        _ => {},
    }
}

/// What the order of creation says of a well-formed store: no identity
/// occurs twice, every node has the identity under which it is listed, and
/// a node is found exactly if the map has its identity.
proof fn lemma_listed(tree: Map<u64, RetainedNode>, order: Seq<ElementId>, id: ElementId)
    requires
        well_formed(tree, order),
    ensures
        distinct(listed(tree, order)),
        forall|i: int| 0 <= i < order.len() ==> (#[trigger] listed(tree, order)[i]).id == order[i],
        match find(listed(tree, order), id) {
            Some(k) => 0 <= k < order.len() && order[k] == id && tree.contains_key(id.0) && listed(
                tree,
                order,
            )[k] == tree[id.0]@,
            None => !tree.contains_key(id.0),
        },
{
    let nodes = listed(tree, order);
    assert forall|i: int| 0 <= i < order.len() implies (#[trigger] nodes[i]).id == order[i] by {
        assert(tree.contains_key(order[i].0));
    }
    crate::frames::lemma_find_from(nodes, id, 0);
    if tree.contains_key(id.0) {
        let i = choose|i: int| 0 <= i < order.len() && #[trigger] order[i] == ElementId(id.0);
        assert(nodes[i].id == id);
    }
}

/// The place of an identity in the order of creation.
fn index_in(order: &Vec<ElementId>, id: ElementId) -> (k: Option<usize>)
    ensures
        match k {
            Some(i) => i < order.len() && order@[i as int] == id,
            None => forall|i: int| 0 <= i < order.len() ==> order@[i] != id,
        },
{
    let mut i: usize = 0;
    while i < order.len()
        invariant
            i <= order.len(),
            forall|j: int| 0 <= j < i ==> order@[j] != id,
        decreases order.len() - i,
    {
        if order[i].0 == id.0 {
            return Some(i);
        }
        i += 1;
    }
    None
}

/// A copy of what was applied.
fn copy_attributes(applied: &Attributes) -> (copy: Attributes)
    ensures
        copy == *applied,
{
    Attributes {
        position: applied.position,
        size: applied.size,
        color: applied.color,
        rotation: applied.rotation,
        roundedness: applied.roundedness,
        text: match &applied.text {
            Some(t) => Some(t.clone()),
            None => None,
        },
        text_size: applied.text_size,
    }
}

/// A copy of the handles.
fn copy_handles(held: &Vec<ObjectId>) -> (handles: Vec<ObjectId>)
    ensures
        handles@ == held@,
{
    let mut handles: Vec<ObjectId> = Vec::new();
    let mut j: usize = 0;
    while j < held.len()
        invariant
            j <= held.len(),
            handles@ == held@.take(j as int),
        decreases held.len() - j,
    {
        handles.push(held[j]);
        assert(handles@ =~= held@.take(j + 1));
        j += 1;
    }
    assert(handles@ =~= held@);
    handles
}

/// Takes note in the store of how a step went.
fn note(store: &mut Store, step: &Step, outcome: Outcome)
    requires
        well_formed(old(store).tree@, old(store).order@),
    ensures
        well_formed(final(store).tree@, final(store).order@),
        listed(final(store).tree@, final(store).order@) == after(
            listed(old(store).tree@, old(store).order@),
            *step,
            outcome,
        ),
{
    broadcast use vstd::std_specs::hash::group_hash_axioms;

    let key: u64 = step.element.0;
    let ghost tree = store.tree@;
    let ghost order = store.order@;
    let ghost nodes = listed(tree, order);
    proof {
        lemma_listed(tree, order, step.element);
    }
    if store.tree.contains_key(&key) {
        let ghost k = find(nodes, step.element).unwrap();
        match &step.op {
            Op::Forget => {
                match index_in(&store.order, step.element) {
                    Some(at) => {
                        assert(at == k);
                        let _ = store.tree.remove(&key);
                        let _ = store.order.remove(at);
                        proof {
                            let left = store.order@;
                            assert forall|i: int| 0 <= i < left.len() implies #[trigger] left[i]
                                == order[if i < k {
                                i
                            } else {
                                i + 1
                            }] by {}
                            assert forall|i: int| 0 <= i < left.len() implies left[i] != step.element by {
                                let from = if i < k {
                                    i
                                } else {
                                    i + 1
                                };
                                assert(order[from] != order[k]);
                            }
                            assert(listed(store.tree@, left) =~= nodes.remove(k));
                            assert forall|key2: u64| #[trigger]
                                store.tree@.contains_key(key2) implies exists|i: int|
                                0 <= i < left.len() && #[trigger] left[i] == ElementId(key2) by {
                                let i = choose|i: int|
                                    0 <= i < order.len() && #[trigger] order[i] == ElementId(key2);
                                let to = if i < k {
                                    i
                                } else {
                                    i - 1
                                };
                                assert(left[to] == ElementId(key2));
                            }
                        }
                    },
                    None => {
                        assert(false);
                    },
                }
            },
            Op::Destroy { .. } => {},
            Op::CreateRect | Op::CreateText => {
                match outcome {
                    Outcome::Created(h) => {
                        match store.tree.remove(&key) {
                            Some(found) => {
                                let mut node = found;
                                node.handles.push(h);
                                store.tree.insert(key, node);
                                proof {
                                    assert(listed(store.tree@, order) =~= after(
                                        nodes,
                                        *step,
                                        outcome,
                                    ));
                                }
                            },
                            None => {
                                assert(false);
                            },
                        }
                    },
                    _ => {},
                }
            },
            _ => {
                match outcome {
                    Outcome::Done => {
                        match store.tree.remove(&key) {
                            Some(found) => {
                                let mut node = found;
                                record_op(&mut node.applied, &step.op);
                                store.tree.insert(key, node);
                                proof {
                                    assert(listed(store.tree@, order) =~= after(
                                        nodes,
                                        *step,
                                        outcome,
                                    ));
                                }
                            },
                            None => {
                                assert(false);
                            },
                        }
                    },
                    _ => {},
                }
            },
        }
    } else {
        match &step.op {
            Op::CreateRect | Op::CreateText => {
                match outcome {
                    Outcome::Created(h) => {
                        let mut handles: Vec<ObjectId> = Vec::new();
                        handles.push(h);
                        store.tree.insert(
                            key,
                            RetainedNode {
                                id: step.element,
                                handles,
                                applied: Attributes {
                                    position: None,
                                    size: None,
                                    color: None,
                                    rotation: None,
                                    roundedness: None,
                                    text: None,
                                    text_size: None,
                                },
                            },
                        );
                        store.order.push(step.element);
                        proof {
                            let longer = store.order@;
                            assert(longer[order.len() as int] == step.element);
                            assert(listed(store.tree@, longer) =~= after(nodes, *step, outcome));
                            assert forall|key2: u64| #[trigger]
                                store.tree@.contains_key(key2) implies exists|i: int|
                                0 <= i < longer.len() && #[trigger] longer[i] == ElementId(key2) by {
                                if key2 == key {
                                    assert(longer[order.len() as int] == ElementId(key2));
                                } else {
                                    let i = choose|i: int|
                                        0 <= i < order.len() && #[trigger] order[i] == ElementId(
                                            key2,
                                        );
                                    assert(longer[i] == ElementId(key2));
                                }
                            }
                        }
                    },
                    _ => {},
                }
            },
            _ => {},
        }
    }
}

impl FireTree {
    /// A tree that remembers nothing.
    pub fn new() -> (tree: FireTree)
        ensures
            tree@ == Seq::<RetainedView>::empty(),
    {
        let tree = FireTree { store: Store { tree: HashMap::new(), order: Vec::new() } };
        assert(tree@ =~= Seq::<RetainedView>::empty());
        tree
    }

    /// What is remembered of the node of identity `id`, if it is retained.
    pub fn get(&self, id: ElementId) -> (found: Option<&RetainedNode>)
        ensures
            match found {
                Some(node) => find(self@, id) matches Some(k) && self@[k] == node@,
                None => find(self@, id) is None,
            },
    {
        broadcast use vstd::std_specs::hash::group_hash_axioms;

        proof {
            use_type_invariant(self);
            lemma_listed(self.store.tree@, self.store.order@, id);
        }
        self.store.tree.get(&id.0)
    }

    /// The place of the node of identity `id` in the order of creation, if
    /// it is retained.
    pub fn position_of(&self, id: ElementId) -> (k: Option<usize>)
        ensures
            match k {
                Some(i) => find(self@, id) == Some(i as int) && i < self@.len(),
                None => find(self@, id) is None,
            },
    {
        proof {
            use_type_invariant(self);
            lemma_listed(self.store.tree@, self.store.order@, id);
        }
        index_in(&self.store.order, id)
    }

    /// The node of identity `id` is retained.
    pub fn contains(&self, id: ElementId) -> (found: bool)
        ensures
            found == find(self@, id).is_some(),
    {
        self.get(id).is_some()
    }

    /// The number of nodes that are retained.
    pub fn len(&self) -> (n: usize)
        ensures
            n == self@.len(),
    {
        self.store.order.len()
    }

    /// The objects that stand for the node of identity `id`: those of a
    /// retained node in the order of their creation, else none.
    pub fn handles_of(&self, id: ElementId) -> (handles: Vec<ObjectId>)
        ensures
            handles@ == (match find(self@, id) {
                Some(k) => self@[k].handles,
                None => Seq::empty(),
            }),
    {
        match self.get(id) {
            Some(node) => copy_handles(&node.handles),
            None => Vec::new(),
        }
    }

    /// A copy of what is remembered, node by node in the order of creation.
    pub fn nodes(&self) -> (nodes: Vec<RetainedNode>)
        ensures
            nodes@.len() == self@.len(),
            forall|i: int| 0 <= i < nodes@.len() ==> (#[trigger] nodes@[i])@ == self@[i],
    {
        broadcast use vstd::std_specs::hash::group_hash_axioms;

        proof {
            use_type_invariant(self);
        }
        let tree = &self.store.tree;
        let order = &self.store.order;
        let mut nodes: Vec<RetainedNode> = Vec::new();
        let mut i: usize = 0;
        while i < order.len()
            invariant
                i <= order.len(),
                well_formed(tree@, order@),
                self@ == listed(tree@, order@),
                nodes@.len() == i,
                forall|j: int| 0 <= j < i ==> (#[trigger] nodes@[j])@ == self@[j],
            decreases order.len() - i,
        {
            match tree.get(&order[i].0) {
                Some(node) => {
                    nodes.push(
                        RetainedNode {
                            id: node.id,
                            handles: copy_handles(&node.handles),
                            applied: copy_attributes(&node.applied),
                        },
                    );
                },
                None => {
                    assert(false);
                },
            }
            i += 1;
        }
        nodes
    }

    /// Takes note of how a step went and says what is to be reported of it.
    pub fn apply_outcome(&mut self, step: &Step, outcome: Outcome) -> (d: Option<Diagnostic>)
        ensures
            final(self)@ == after(old(self)@, *step, outcome),
            d == report(*step, outcome),
    {
        proof {
            use_type_invariant(&*self);
        }
        let mut store = Store { tree: HashMap::new(), order: Vec::new() };
        core::mem::swap(&mut store, &mut self.store);
        note(&mut store, step, outcome);
        self.store = store;
        step.report(outcome)
    }

    /// Takes note of how the steps of a frame went, one after another, and
    /// gives back what is to be reported: the refusals, in order.  A step
    /// for which `outcomes` has no entry counts as failed.
    pub fn commit(&mut self, steps: &Vec<Step>, outcomes: &Vec<Outcome>) -> (diagnostics: Vec<
        Diagnostic,
    >)
        ensures
            final(self)@ == replay(old(self)@, steps@, outcomes@, steps@.len() as int),
            diagnostics@ == reports(steps@, outcomes@, steps@.len() as int),
    {
        let ghost nodes = self@;
        let mut diagnostics: Vec<Diagnostic> = Vec::new();
        let mut i: usize = 0;
        while i < steps.len()
            invariant
                i <= steps.len(),
                self@ == replay(nodes, steps@, outcomes@, i as int),
                diagnostics@ == reports(steps@, outcomes@, i as int),
            decreases steps.len() - i,
        {
            let outcome = if i < outcomes.len() {
                outcomes[i]
            } else {
                Outcome::Failed
            };
            match self.apply_outcome(&steps[i], outcome) {
                Some(d) => {
                    diagnostics.push(d);
                },
                None => {},
            }
            i += 1;
        }
        diagnostics
    }
}

} // verus!
