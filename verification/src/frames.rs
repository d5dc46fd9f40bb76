//! What holds of the reconciler from one frame to the next.
//!
//! The retained tree changes step by step, and a step touches nothing but
//! the node it names.  So the fate of one node can be followed on its own
//! ([`entry_after`], [`entry_replay`]); the laws of this module are stated
//! for one node and hold whatever happens to the others.

use vstd::prelude::*;
use crate::backend::{is_create, succeeded, ObjectId, Op, Outcome, Step};
use crate::element::{Element, ElementId, ElementKind};
use crate::engine::{geometry_of, Placement};
use crate::geometry::Geometry;
use crate::widget_tree::{
    after, any_has_id, attributes_of, blank_attributes, changes, children_steps, color_of,
    color_steps, create_step, destroy_steps, distinct, find, find_from, has_id, kind_steps,
    leaf_steps, node_steps, outcome_at, pixel_position, pixel_size, plan, position_steps, record,
    release_steps, removal_steps, replay, rotation_of, rotation_steps, same_text, size_steps,
    Attributes, RetainedView,
};

verus! {

/// What is remembered of the node of identity `id`, if it is retained.
pub open spec fn entry(nodes: Seq<RetainedView>, id: ElementId) -> Option<RetainedView> {
    match find(nodes, id) {
        Some(k) => Some(nodes[k]),
        None => None,
    }
}

/// What is remembered of the node of identity `id` after a step, given what
/// was remembered of it before.  A step for another node changes nothing.
pub open spec fn entry_after(
    before: Option<RetainedView>,
    id: ElementId,
    step: Step,
    outcome: Outcome,
) -> Option<RetainedView> {
    if step.element != id {
        before
    } else {
        match before {
            Some(node) => match step.op {
                Op::Forget => None,
                Op::Destroy { .. } => before,
                Op::CreateRect | Op::CreateText => match outcome {
                    Outcome::Created(h) => Some(
                        RetainedView { handles: node.handles.push(h), ..node },
                    ),
                    _ => before,
                },
                _ => match outcome {
                    Outcome::Done => Some(
                        RetainedView { applied: record(node.applied, step.op), ..node },
                    ),
                    _ => before,
                },
            },
            None => match step.op {
                Op::CreateRect | Op::CreateText => match outcome {
                    Outcome::Created(h) => Some(
                        RetainedView { id, handles: seq![h], applied: blank_attributes() },
                    ),
                    _ => None,
                },
                _ => None,
            },
        }
    }
}

/// What is remembered of the node of identity `id` after the first `upto`
/// steps with their outcomes.
pub open spec fn entry_replay(
    before: Option<RetainedView>,
    id: ElementId,
    steps: Seq<Step>,
    outcomes: Seq<Outcome>,
    upto: int,
) -> Option<RetainedView>
    decreases upto,
{
    if upto <= 0 {
        before
    } else {
        entry_after(
            entry_replay(before, id, steps, outcomes, upto - 1),
            id,
            steps[upto - 1],
            outcome_at(outcomes, upto - 1),
        )
    }
}

/// The search from `from` finds the first node of the identity, and finds
/// none only if there is none.
pub proof fn lemma_find_from(nodes: Seq<RetainedView>, id: ElementId, from: int)
    requires
        0 <= from,
    ensures
        match find_from(nodes, id, from) {
            Some(k) => from <= k < nodes.len() && nodes[k].id == id && forall|j: int|
                from <= j < k ==> (#[trigger] nodes[j]).id != id,
            None => forall|j: int| from <= j < nodes.len() ==> (#[trigger] nodes[j]).id != id,
        },
    decreases nodes.len() - from,
{
    if from < nodes.len() && nodes[from].id != id {
        lemma_find_from(nodes, id, from + 1);
    }
}

/// The first node of an identity is the one that the search finds.
pub proof fn lemma_found(nodes: Seq<RetainedView>, id: ElementId, k: int)
    requires
        0 <= k < nodes.len(),
        nodes[k].id == id,
        forall|j: int| 0 <= j < k ==> (#[trigger] nodes[j]).id != id,
    ensures
        find(nodes, id) == Some(k),
{
    lemma_find_from(nodes, id, 0);
}

/// Where no node has the identity, the search finds none.
pub proof fn lemma_not_found(nodes: Seq<RetainedView>, id: ElementId)
    requires
        forall|j: int| 0 <= j < nodes.len() ==> (#[trigger] nodes[j]).id != id,
    ensures
        find(nodes, id) is None,
{
    lemma_find_from(nodes, id, 0);
}

/// A step changes what is remembered of the node it names and of no other,
/// and never makes an identity occur twice.
pub proof fn lemma_step_is_local(
    nodes: Seq<RetainedView>,
    id: ElementId,
    step: Step,
    outcome: Outcome,
)
    requires
        distinct(nodes),
    ensures
        distinct(after(nodes, step, outcome)),
        entry(after(nodes, step, outcome), id) == entry_after(entry(nodes, id), id, step, outcome),
{
    let next = after(nodes, step, outcome);
    lemma_find_from(nodes, id, 0);
    lemma_find_from(nodes, step.element, 0);
    match find(nodes, step.element) {
        Some(k) => {
            if next.len() == nodes.len() {
                // The node at `k` was replaced by one of the same identity, or nothing changed.
                assert forall|j: int| 0 <= j < next.len() implies (#[trigger] next[j]).id
                    == nodes[j].id by {}
                assert(distinct(next));
                match find(nodes, id) {
                    Some(m) => {
                        lemma_found(next, id, m);
                    },
                    None => {
                        lemma_not_found(next, id);
                    },
                }
            } else {
                // The node at `k` was removed.
                assert(next == nodes.remove(k));
                assert forall|j: int| 0 <= j < next.len() implies #[trigger] next[j] == nodes[if j
                    < k {
                    j
                } else {
                    j + 1
                }] by {}
                assert(distinct(next)) by {
                    assert forall|i: int, j: int| 0 <= i < j < next.len() implies (
                    #[trigger] next[i]).id != (#[trigger] next[j]).id by {
                        let a = if i < k {
                            i
                        } else {
                            i + 1
                        };
                        let b = if j < k {
                            j
                        } else {
                            j + 1
                        };
                        assert(nodes[a].id != nodes[b].id);
                    }
                }
                match find(nodes, id) {
                    Some(m) => {
                        if m == k {
                            assert forall|j: int| 0 <= j < next.len() implies (
                            #[trigger] next[j]).id != id by {
                                let a = if j < k {
                                    j
                                } else {
                                    j + 1
                                };
                                assert(nodes[a].id != nodes[k].id);
                            }
                            lemma_not_found(next, id);
                        } else if m < k {
                            lemma_found(next, id, m);
                        } else {
                            assert forall|j: int| 0 <= j < m - 1 implies (#[trigger] next[j]).id
                                != id by {
                                let a = if j < k {
                                    j
                                } else {
                                    j + 1
                                };
                                assert(nodes[a].id != id);
                            }
                            lemma_found(next, id, m - 1);
                        }
                    },
                    None => {
                        assert forall|j: int| 0 <= j < next.len() implies (#[trigger] next[j]).id
                            != id by {
                            let a = if j < k {
                                j
                            } else {
                                j + 1
                            };
                            assert(nodes[a].id != id);
                        }
                        lemma_not_found(next, id);
                    },
                }
            }
        },
        None => {
            if next.len() == nodes.len() {
                assert(next == nodes);
            } else {
                // A node of a new identity was added at the end.
                let n = nodes.len() as int;
                assert(next.len() == n + 1);
                assert(next[n].id == step.element);
                assert forall|j: int| 0 <= j < n implies #[trigger] next[j] == nodes[j] by {}
                assert(distinct(next)) by {
                    assert forall|i: int, j: int| 0 <= i < j < next.len() implies (
                    #[trigger] next[i]).id != (#[trigger] next[j]).id by {
                        if j < n {
                            assert(nodes[i].id != nodes[j].id);
                        } else {
                            assert(nodes[i].id != step.element);
                        }
                    }
                }
                match find(nodes, id) {
                    Some(m) => {
                        lemma_found(next, id, m);
                    },
                    None => {
                        if id == step.element {
                            lemma_found(next, id, n);
                        } else {
                            lemma_not_found(next, id);
                        }
                    },
                }
            }
        },
    }
}

/// Through a whole run of steps, what is remembered of one node follows
/// from the steps alone that name it.
pub proof fn lemma_replay_is_local(
    nodes: Seq<RetainedView>,
    id: ElementId,
    steps: Seq<Step>,
    outcomes: Seq<Outcome>,
    upto: int,
)
    requires
        distinct(nodes),
    ensures
        distinct(replay(nodes, steps, outcomes, upto)),
        entry(replay(nodes, steps, outcomes, upto), id) == entry_replay(
            entry(nodes, id),
            id,
            steps,
            outcomes,
            upto,
        ),
    decreases upto,
{
    if upto > 0 {
        lemma_replay_is_local(nodes, id, steps, outcomes, upto - 1);
        lemma_step_is_local(
            replay(nodes, steps, outcomes, upto - 1),
            id,
            steps[upto - 1],
            outcome_at(outcomes, upto - 1),
        );
    }
}

/// A step that the walk over a tree below `e` can ask for: it names a node
/// of the tree, it creates or sets, and it creates only what is not retained.
pub open spec fn is_walk_step(e: Element, nodes: Seq<RetainedView>, s: Step) -> bool {
    &&& has_id(e, s.element)
    &&& !(s.op is Destroy)
    &&& !(s.op is Forget)
    &&& is_create(s.op) ==> find(nodes, s.element) is None
}

/// A step that lets go of a node: it names a retained node that is not in
/// the tree below `root`, and it destroys or forgets.
pub open spec fn is_removal_step(root: Element, nodes: Seq<RetainedView>, s: Step) -> bool {
    &&& !has_id(root, s.element)
    &&& find(nodes, s.element) is Some
    &&& s.op is Destroy || s.op is Forget
}

/// An identity that occurs below one of the later children occurs below
/// the children as a whole.
pub proof fn lemma_any_has_id(cs: Seq<Element>, id: ElementId, from: int, i: int)
    requires
        0 <= from <= i < cs.len(),
        has_id(cs[i], id),
    ensures
        any_has_id(cs, id, from),
    decreases i - from,
{
    if from < i {
        lemma_any_has_id(cs, id, from + 1, i);
    }
}

/// Every step for a leaf names the leaf, and only the first can be a create step.
pub proof fn lemma_leaf_steps(
    e: Element,
    geometry: Option<Geometry>,
    retained: Option<Attributes>,
    per_mille: int,
    k: int,
)
    requires
        0 <= k < leaf_steps(e, geometry, retained, per_mille).len(),
    ensures
        leaf_steps(e, geometry, retained, per_mille)[k].element == e.id,
        !(leaf_steps(e, geometry, retained, per_mille)[k].op is Destroy),
        !(leaf_steps(e, geometry, retained, per_mille)[k].op is Forget),
        is_create(leaf_steps(e, geometry, retained, per_mille)[k].op) ==> retained is None && k
            == 0,
{
    let applied = match retained {
        Some(a) => a,
        None => blank_attributes(),
    };
    lemma_changes(e, geometry, applied, per_mille, if retained is None {
        k - 1
    } else {
        k
    });
}

/// Every one of the changes of a leaf names the leaf and sets an attribute.
pub proof fn lemma_changes(
    e: Element,
    geometry: Option<Geometry>,
    applied: Attributes,
    per_mille: int,
    k: int,
)
    ensures
        0 <= k < changes(e, geometry, applied, per_mille).len() ==> {
            let s = changes(e, geometry, applied, per_mille)[k];
            s.element == e.id && !is_create(s.op) && !(s.op is Destroy) && !(s.op is Forget)
        },
{
    let a = position_steps(e.id, geometry, applied, per_mille);
    let b = size_steps(e.id, geometry, applied, per_mille);
    let c = color_steps(e, applied);
    let d = rotation_steps(e, applied);
    let f = kind_steps(e, applied);
    assert(forall|j: int| 0 <= j < a.len() ==> (#[trigger] a[j]).element == e.id && a[j].op is SetPosition);
    assert(forall|j: int| 0 <= j < b.len() ==> (#[trigger] b[j]).element == e.id && b[j].op is SetSize);
    assert(forall|j: int| 0 <= j < c.len() ==> (#[trigger] c[j]).element == e.id && c[j].op is SetColor);
    assert(forall|j: int| 0 <= j < d.len() ==> (#[trigger] d[j]).element == e.id && d[j].op is SetRotation);
    assert(forall|j: int|
        0 <= j < f.len() ==> (#[trigger] f[j]).element == e.id && (f[j].op is SetRoundedness
            || f[j].op is SetTextContent || f[j].op is SetTextSize));
}

/// Every step of the walk over a tree is a walk step of that tree.
pub proof fn lemma_walk_steps(
    e: Element,
    placements: Seq<Placement>,
    nodes: Seq<RetainedView>,
    per_mille: int,
)
    ensures
        forall|k: int|
            0 <= k < node_steps(e, placements, nodes, per_mille).len() ==> is_walk_step(
                e,
                nodes,
                #[trigger] node_steps(e, placements, nodes, per_mille)[k],
            ),
    decreases e,
{
    let steps = node_steps(e, placements, nodes, per_mille);
    match e.kind {
        ElementKind::Container { children, .. } => {
            let below = children_steps(children@, placements, nodes, per_mille, 0);
            lemma_children_walk_steps(e, children@, placements, nodes, per_mille, 0);
            assert(steps == below);
            assert forall|k: int| 0 <= k < steps.len() implies is_walk_step(
                e,
                nodes,
                #[trigger] steps[k],
            ) by {
                assert(is_walk_step(e, nodes, below[k]));
            }
        },
        ElementKind::Empty => {},
        _ => {
            assert forall|k: int| 0 <= k < steps.len() implies is_walk_step(
                e,
                nodes,
                #[trigger] steps[k],
            ) by {
                lemma_leaf_steps(
                    e,
                    geometry_of(placements, e.id),
                    attributes_of(nodes, e.id),
                    per_mille,
                    k,
                );
            }
        },
    }
}

/// Every step of the walk over the children of `e` from `from` on is a walk
/// step of the tree below `e`.
pub proof fn lemma_children_walk_steps(
    e: Element,
    cs: Seq<Element>,
    placements: Seq<Placement>,
    nodes: Seq<RetainedView>,
    per_mille: int,
    from: int,
)
    requires
        e.kind is Container,
        e.kind->children@ == cs,
        0 <= from,
    ensures
        forall|k: int|
            0 <= k < children_steps(cs, placements, nodes, per_mille, from).len() ==> is_walk_step(
                e,
                nodes,
                #[trigger] children_steps(cs, placements, nodes, per_mille, from)[k],
            ),
    decreases e, cs.len() - from,
{
    if from < cs.len() {
        let head = node_steps(cs[from], placements, nodes, per_mille);
        let tail = children_steps(cs, placements, nodes, per_mille, from + 1);
        lemma_walk_steps(cs[from], placements, nodes, per_mille);
        lemma_children_walk_steps(e, cs, placements, nodes, per_mille, from + 1);
        assert forall|k: int| 0 <= k < (head + tail).len() implies is_walk_step(
            e,
            nodes,
            #[trigger] (head + tail)[k],
        ) by {
            if k < head.len() {
                assert((head + tail)[k] == head[k]);
                assert(is_walk_step(cs[from], nodes, head[k]));
                lemma_any_has_id(cs, head[k].element, 0, from);
            } else {
                assert((head + tail)[k] == tail[k - head.len()]);
            }
        }
    }
}

/// Every step that lets go of the nodes from `from` on is a removal step.
pub proof fn lemma_removal_steps(nodes: Seq<RetainedView>, root: Element, from: int)
    requires
        0 <= from,
    ensures
        forall|k: int|
            0 <= k < removal_steps(nodes, root, from).len() ==> is_removal_step(
                root,
                nodes,
                #[trigger] removal_steps(nodes, root, from)[k],
            ),
    decreases nodes.len() - from,
{
    if from < nodes.len() {
        let head = if has_id(root, nodes[from].id) {
            Seq::<Step>::empty()
        } else {
            release_steps(nodes[from])
        };
        let tail = removal_steps(nodes, root, from + 1);
        lemma_removal_steps(nodes, root, from + 1);
        lemma_find_from(nodes, nodes[from].id, 0);
        assert forall|k: int| 0 <= k < (head + tail).len() implies is_removal_step(
            root,
            nodes,
            #[trigger] (head + tail)[k],
        ) by {
            if k < head.len() {
                assert((head + tail)[k] == head[k]);
            } else {
                assert((head + tail)[k] == tail[k - head.len()]);
            }
        }
    }
}

/// Every step of a frame is a walk step of the new tree or a removal step.
pub proof fn lemma_plan_steps(
    root: Element,
    placements: Seq<Placement>,
    nodes: Seq<RetainedView>,
    per_mille: int,
    k: int,
)
    requires
        0 <= k < plan(root, placements, nodes, per_mille).len(),
    ensures
        is_walk_step(root, nodes, plan(root, placements, nodes, per_mille)[k]) || is_removal_step(
            root,
            nodes,
            plan(root, placements, nodes, per_mille)[k],
        ),
{
    let walk = node_steps(root, placements, nodes, per_mille);
    let removal = removal_steps(nodes, root, 0);
    lemma_walk_steps(root, placements, nodes, per_mille);
    lemma_removal_steps(nodes, root, 0);
    if k < walk.len() {
        assert((walk + removal)[k] == walk[k]);
    } else {
        assert((walk + removal)[k] == removal[k - walk.len()]);
    }
}

/// No frame asks for a new object for a leaf that is retained.
pub proof fn lemma_retained_is_not_created(
    root: Element,
    placements: Seq<Placement>,
    nodes: Seq<RetainedView>,
    per_mille: int,
    k: int,
)
    requires
        0 <= k < plan(root, placements, nodes, per_mille).len(),
        is_create(plan(root, placements, nodes, per_mille)[k].op),
    ensures
        find(nodes, plan(root, placements, nodes, per_mille)[k].element) is None,
{
    lemma_plan_steps(root, placements, nodes, per_mille, k);
}

/// A node that is retained stays retained through every step that does not
/// forget it.
pub proof fn lemma_retained_stays(
    before: Option<RetainedView>,
    id: ElementId,
    steps: Seq<Step>,
    outcomes: Seq<Outcome>,
    from: int,
    upto: int,
)
    requires
        0 <= from <= upto,
        entry_replay(before, id, steps, outcomes, from) is Some,
        forall|j: int| from <= j < upto ==> !((#[trigger] steps[j]).element == id && steps[j].op is Forget),
    ensures
        entry_replay(before, id, steps, outcomes, upto) is Some,
    decreases upto - from,
{
    if from < upto {
        lemma_retained_stays(before, id, steps, outcomes, from, upto - 1);
        assert(!(steps[upto - 1].element == id && steps[upto - 1].op is Forget));
    }
}

/// A leaf is created at most once: when the backend has created its object
/// in one frame, and whatever else happens in that frame, no later frame
/// asks for a new object for it, for as long as it is retained.
pub proof fn lemma_create_once(
    nodes: Seq<RetainedView>,
    root: Element,
    placements: Seq<Placement>,
    per_mille: int,
    outcomes: Seq<Outcome>,
    k: int,
    next_root: Element,
    next_placements: Seq<Placement>,
    next_per_mille: int,
    j: int,
)
    requires
        distinct(nodes),
        0 <= k < plan(root, placements, nodes, per_mille).len(),
        is_create(plan(root, placements, nodes, per_mille)[k].op),
        outcome_at(outcomes, k) is Created,
        0 <= j < plan(
            next_root,
            next_placements,
            replay(
                nodes,
                plan(root, placements, nodes, per_mille),
                outcomes,
                plan(root, placements, nodes, per_mille).len() as int,
            ),
            next_per_mille,
        ).len(),
    ensures
        ({
            let steps = plan(root, placements, nodes, per_mille);
            let retained = replay(nodes, steps, outcomes, steps.len() as int);
            let next = plan(next_root, next_placements, retained, next_per_mille);
            &&& find(retained, steps[k].element) is Some
            &&& is_create(next[j].op) ==> next[j].element != steps[k].element
        }),
{
    let steps = plan(root, placements, nodes, per_mille);
    let n = steps.len() as int;
    let id = steps[k].element;
    let retained = replay(nodes, steps, outcomes, n);
    lemma_replay_is_local(nodes, id, steps, outcomes, n);
    lemma_plan_steps(root, placements, nodes, per_mille, k);
    assert(entry_replay(entry(nodes, id), id, steps, outcomes, k + 1) is Some);
    assert forall|i: int| k + 1 <= i < n implies !((#[trigger] steps[i]).element == id
        && steps[i].op is Forget) by {
        lemma_plan_steps(root, placements, nodes, per_mille, i);
    }
    lemma_retained_stays(entry(nodes, id), id, steps, outcomes, k + 1, n);
    let next = plan(next_root, next_placements, retained, next_per_mille);
    if is_create(next[j].op) {
        lemma_retained_is_not_created(next_root, next_placements, retained, next_per_mille, j);
    }
}

/// The handles that the steps ask to destroy for the node of identity `id`,
/// in the order of the steps.
pub open spec fn destroyed(steps: Seq<Step>, id: ElementId) -> Seq<ObjectId>
    decreases steps.len(),
{
    if steps.len() == 0 {
        Seq::empty()
    } else {
        let last = steps.last();
        let before = destroyed(steps.drop_last(), id);
        match last.op {
            Op::Destroy { handle } => if last.element == id {
                before.push(handle)
            } else {
                before
            },
            _ => before,
        }
    }
}


/// What two runs of steps ask to destroy is what the first asks, then what
/// the second asks.
pub proof fn lemma_destroyed_concat(a: Seq<Step>, b: Seq<Step>, id: ElementId)
    ensures
        destroyed(a + b, id) == destroyed(a, id) + destroyed(b, id),
    decreases b.len(),
{
    if b.len() == 0 {
        assert(a + b =~= a);
        assert(destroyed(a, id) + destroyed(b, id) =~= destroyed(a, id));
    } else {
        assert((a + b).drop_last() =~= a + b.drop_last());
        assert((a + b).last() == b.last());
        lemma_destroyed_concat(a, b.drop_last(), id);
        assert(destroyed(a + b, id) =~= destroyed(a, id) + destroyed(b, id));
    }
}

/// Steps of which none destroys an object of the node ask to destroy none.
pub proof fn lemma_none_destroyed(steps: Seq<Step>, id: ElementId)
    requires
        forall|k: int|
            0 <= k < steps.len() ==> !((#[trigger] steps[k]).op is Destroy && steps[k].element
                == id),
    ensures
        destroyed(steps, id) == Seq::<ObjectId>::empty(),
    decreases steps.len(),
{
    if steps.len() > 0 {
        let shorter = steps.drop_last();
        assert forall|k: int| 0 <= k < shorter.len() implies !((#[trigger] shorter[k]).op is Destroy
            && shorter[k].element == id) by {
            assert(shorter[k] == steps[k]);
        }
        lemma_none_destroyed(shorter, id);
        assert(!(steps[steps.len() - 1].op is Destroy && steps[steps.len() - 1].element == id));
    }
}

/// The destroy steps for the first objects of a node ask to destroy
/// exactly those objects, in order.
pub proof fn lemma_destroy_steps(node: RetainedView, upto: int)
    requires
        0 <= upto <= node.handles.len(),
    ensures
        destroyed(destroy_steps(node, upto), node.id) == node.handles.take(upto),
    decreases upto,
{
    if upto > 0 {
        lemma_destroy_steps(node, upto - 1);
        assert(destroy_steps(node, upto).drop_last() =~= destroy_steps(node, upto - 1));
        assert(destroyed(destroy_steps(node, upto), node.id) =~= node.handles.take(upto));
    } else {
        assert(node.handles.take(0) =~= Seq::<ObjectId>::empty());
    }
}

/// Letting go of a node asks to destroy each of its objects once, in
/// order, and asks nothing of the objects of any other node.
pub proof fn lemma_release_destroys(node: RetainedView, id: ElementId)
    ensures
        destroyed(release_steps(node), id) == (if node.id == id {
            node.handles
        } else {
            Seq::<ObjectId>::empty()
        }),
{
    let steps = release_steps(node);
    if node.id == id {
        lemma_destroy_steps(node, node.handles.len() as int);
        assert(steps.drop_last() =~= destroy_steps(node, node.handles.len() as int));
        assert(node.handles.take(node.handles.len() as int) =~= node.handles);
    } else {
        lemma_none_destroyed(steps, id);
    }
}

/// Letting go of what is gone asks to destroy the objects of a node that
/// is gone once each, in order.
pub proof fn lemma_removal_destroys(nodes: Seq<RetainedView>, root: Element, from: int, k: int)
    requires
        distinct(nodes),
        0 <= from,
        0 <= k < nodes.len(),
        !has_id(root, nodes[k].id),
    ensures
        destroyed(removal_steps(nodes, root, from), nodes[k].id) == (if from <= k {
            nodes[k].handles
        } else {
            Seq::<ObjectId>::empty()
        }),
    decreases nodes.len() - from,
{
    let id = nodes[k].id;
    if from < nodes.len() {
        let head = if has_id(root, nodes[from].id) {
            Seq::<Step>::empty()
        } else {
            release_steps(nodes[from])
        };
        let tail = removal_steps(nodes, root, from + 1);
        lemma_removal_destroys(nodes, root, from + 1, k);
        lemma_destroyed_concat(head, tail, id);
        if has_id(root, nodes[from].id) {
        } else {
            lemma_release_destroys(nodes[from], id);
        }
        if from != k {
            assert(nodes[from].id != nodes[k].id);
        }
        assert(destroyed(head, id) + destroyed(tail, id) =~= (if from <= k {
            nodes[k].handles
        } else {
            Seq::<ObjectId>::empty()
        }));
    }
}

/// Among the steps that let go of what is gone there is one that forgets
/// the node at `k`, if that node is gone.
pub proof fn lemma_forget_index(nodes: Seq<RetainedView>, root: Element, from: int, k: int) -> (f:
    int)
    requires
        0 <= from <= k < nodes.len(),
        !has_id(root, nodes[k].id),
    ensures
        0 <= f < removal_steps(nodes, root, from).len(),
        removal_steps(nodes, root, from)[f] == (Step { element: nodes[k].id, op: Op::Forget }),
    decreases k - from,
{
    let head = if has_id(root, nodes[from].id) {
        Seq::<Step>::empty()
    } else {
        release_steps(nodes[from])
    };
    let tail = removal_steps(nodes, root, from + 1);
    if from == k {
        let f = head.len() - 1;
        assert((head + tail)[f] == head[f]);
        f
    } else {
        let g = lemma_forget_index(nodes, root, from + 1, k);
        assert((head + tail)[head.len() + g] == tail[g]);
        head.len() + g
    }
}

/// After a step that forgets a node, and as long as no step creates an
/// object for it, nothing is remembered of the node.
pub proof fn lemma_forgotten(
    before: Option<RetainedView>,
    id: ElementId,
    steps: Seq<Step>,
    outcomes: Seq<Outcome>,
    upto: int,
    f: int,
)
    requires
        0 <= f < upto,
        steps[f].element == id,
        steps[f].op is Forget,
        forall|j: int| f < j < upto ==> !((#[trigger] steps[j]).element == id && is_create(steps[j].op)),
    ensures
        entry_replay(before, id, steps, outcomes, upto) is None,
    decreases upto,
{
    if upto - 1 > f {
        lemma_forgotten(before, id, steps, outcomes, upto - 1, f);
        assert(!(steps[upto - 1].element == id && is_create(steps[upto - 1].op)));
    }
}

/// A node that is retained and no longer in the tree is let go: the frame
/// asks to destroy each of its objects exactly once, in the order of their
/// creation, and when the frame is over nothing is remembered of the node,
/// whatever the backend answered.
pub proof fn lemma_gone_is_released(
    nodes: Seq<RetainedView>,
    root: Element,
    placements: Seq<Placement>,
    per_mille: int,
    outcomes: Seq<Outcome>,
    k: int,
)
    requires
        distinct(nodes),
        0 <= k < nodes.len(),
        !has_id(root, nodes[k].id),
    ensures
        destroyed(plan(root, placements, nodes, per_mille), nodes[k].id) == nodes[k].handles,
        find(
            replay(
                nodes,
                plan(root, placements, nodes, per_mille),
                outcomes,
                plan(root, placements, nodes, per_mille).len() as int,
            ),
            nodes[k].id,
        ) is None,
{
    let id = nodes[k].id;
    let walk = node_steps(root, placements, nodes, per_mille);
    let removal = removal_steps(nodes, root, 0);
    let steps = plan(root, placements, nodes, per_mille);
    let n = steps.len() as int;
    lemma_walk_steps(root, placements, nodes, per_mille);
    lemma_none_destroyed(walk, id);
    lemma_removal_destroys(nodes, root, 0, k);
    lemma_destroyed_concat(walk, removal, id);
    assert(destroyed(walk, id) + destroyed(removal, id) =~= nodes[k].handles);

    let g = lemma_forget_index(nodes, root, 0, k);
    let f = walk.len() + g;
    assert(steps[f] == removal[g]);
    assert forall|j: int| f < j < n implies !((#[trigger] steps[j]).element == id && is_create(
        steps[j].op,
    )) by {
        lemma_plan_steps(root, placements, nodes, per_mille, j);
    }
    lemma_forgotten(entry(nodes, id), id, steps, outcomes, n, f);
    lemma_replay_is_local(nodes, id, steps, outcomes, n);
}

/// The attributes after every one of the steps was carried out.
pub open spec fn recorded(applied: Attributes, steps: Seq<Step>) -> Attributes
    decreases steps.len(),
{
    if steps.len() == 0 {
        applied
    } else {
        record(recorded(applied, steps.drop_last()), steps.last().op)
    }
}

/// What a leaf asks for is what was applied to its objects.
pub open spec fn shows(
    applied: Attributes,
    e: Element,
    geometry: Option<Geometry>,
    per_mille: int,
) -> bool {
    &&& geometry matches Some(g) ==> applied.position == Some(pixel_position(g, per_mille))
        && applied.size == Some(pixel_size(g, per_mille))
    &&& applied.color == Some(color_of(e))
    &&& applied.rotation == Some(rotation_of(e))
    &&& e.kind matches ElementKind::Rect { roundedness } ==> applied.roundedness == Some(
        roundedness,
    )
    &&& e.kind matches ElementKind::Text { content, font_size } ==> same_text(applied.text, content)
        && applied.text_size == Some(font_size)
}

/// A leaf whose objects show what it asks for needs no step.
pub proof fn lemma_shown_leaf_needs_nothing(
    applied: Attributes,
    e: Element,
    geometry: Option<Geometry>,
    per_mille: int,
)
    requires
        shows(applied, e, geometry, per_mille),
    ensures
        changes(e, geometry, applied, per_mille) == Seq::<Step>::empty(),
        leaf_steps(e, geometry, Some(applied), per_mille) == Seq::<Step>::empty(),
{
    assert(changes(e, geometry, applied, per_mille) =~= Seq::<Step>::empty());
}

/// Carrying out two runs of steps is carrying out the first, then the second.
pub proof fn lemma_recorded_concat(applied: Attributes, a: Seq<Step>, b: Seq<Step>)
    ensures
        recorded(applied, a + b) == recorded(recorded(applied, a), b),
    decreases b.len(),
{
    if b.len() == 0 {
        assert(a + b =~= a);
    } else {
        assert((a + b).drop_last() =~= a + b.drop_last());
        assert((a + b).last() == b.last());
        lemma_recorded_concat(applied, a, b.drop_last());
    }
}

/// Carrying out at most one step.
pub proof fn lemma_recorded_short(applied: Attributes, steps: Seq<Step>)
    requires
        steps.len() <= 1,
    ensures
        recorded(applied, steps) == (if steps.len() == 0 {
            applied
        } else {
            record(applied, steps[0].op)
        }),
{
    if steps.len() == 1 {
        assert(steps.drop_last().len() == 0);
        assert(recorded(applied, steps.drop_last()) == applied);
    }
}

/// Once the changes of a leaf are carried out, its objects show what it
/// asks for.
pub proof fn lemma_changes_settle(
    applied: Attributes,
    e: Element,
    geometry: Option<Geometry>,
    per_mille: int,
)
    requires
        e.kind is Rect || e.kind is Text,
    ensures
        shows(recorded(applied, changes(e, geometry, applied, per_mille)), e, geometry, per_mille),
{
    let a = position_steps(e.id, geometry, applied, per_mille);
    let b = size_steps(e.id, geometry, applied, per_mille);
    let c = color_steps(e, applied);
    let d = rotation_steps(e, applied);
    let f = kind_steps(e, applied);
    let after_a = recorded(applied, a);
    let after_b = recorded(after_a, b);
    let after_c = recorded(after_b, c);
    let after_d = recorded(after_c, d);
    let after_f = recorded(after_d, f);
    lemma_recorded_short(applied, a);
    lemma_recorded_short(after_a, b);
    lemma_recorded_short(after_b, c);
    lemma_recorded_short(after_c, d);
    lemma_recorded_concat(applied, a, b);
    lemma_recorded_concat(applied, a + b, c);
    lemma_recorded_concat(applied, a + b + c, d);
    lemma_recorded_concat(applied, a + b + c + d, f);
    match e.kind {
        ElementKind::Text { content, font_size } => {
            let t = if same_text(applied.text, content) {
                Seq::<Step>::empty()
            } else {
                seq![Step { element: e.id, op: Op::SetTextContent { content } }]
            };
            let u = if applied.text_size == Some(font_size) {
                Seq::<Step>::empty()
            } else {
                seq![Step { element: e.id, op: Op::SetTextSize { font_size } }]
            };
            assert(f == t + u);
            lemma_recorded_concat(after_d, t, u);
            lemma_recorded_short(after_d, t);
            lemma_recorded_short(recorded(after_d, t), u);
        },
        _ => {
            lemma_recorded_short(after_d, f);
        },
    }
}

/// Through steps that set attributes of a retained node and are carried
/// out, the node stays what it was but for what was applied to it.
pub proof fn lemma_sets_are_recorded(
    before: Option<RetainedView>,
    id: ElementId,
    steps: Seq<Step>,
    outcomes: Seq<Outcome>,
    from: int,
    upto: int,
)
    requires
        0 <= from <= upto <= steps.len(),
        entry_replay(before, id, steps, outcomes, from) is Some,
        forall|j: int|
            from <= j < upto ==> (#[trigger] steps[j]).element == id && !is_create(steps[j].op)
                && !(steps[j].op is Destroy) && !(steps[j].op is Forget) && outcome_at(outcomes, j)
                is Done,
    ensures
        entry_replay(before, id, steps, outcomes, upto) == Some(
            RetainedView {
                applied: recorded(
                    entry_replay(before, id, steps, outcomes, from).unwrap().applied,
                    steps.subrange(from, upto),
                ),
                ..entry_replay(before, id, steps, outcomes, from).unwrap()
            },
        ),
    decreases upto - from,
{
    if from < upto {
        lemma_sets_are_recorded(before, id, steps, outcomes, from, upto - 1);
        assert(steps.subrange(from, upto).drop_last() =~= steps.subrange(from, upto - 1));
        assert(steps.subrange(from, upto).last() == steps[upto - 1]);
        assert(steps[upto - 1].element == id);
    } else {
        assert(steps.subrange(from, upto).len() == 0);
    }
}

/// What was applied to a node, if anything is remembered of it.
pub open spec fn applied_of(before: Option<RetainedView>) -> Option<Attributes> {
    match before {
        Some(node) => Some(node.applied),
        None => None,
    }
}

/// Once the steps for a leaf are carried out, the leaf is retained and its
/// objects show what it asks for.  So the next frame needs no step for it,
/// as long as it asks for the same and its box and the scale stay as they are.
pub proof fn lemma_leaf_settles(
    before: Option<RetainedView>,
    e: Element,
    geometry: Option<Geometry>,
    per_mille: int,
    outcomes: Seq<Outcome>,
)
    requires
        e.kind is Rect || e.kind is Text,
        before matches Some(node) ==> node.id == e.id,
        forall|j: int|
            0 <= j < leaf_steps(e, geometry, applied_of(before), per_mille).len() ==> succeeded(
                #[trigger] leaf_steps(e, geometry, applied_of(before), per_mille)[j].op,
                outcome_at(outcomes, j),
            ),
    ensures
        ({
            let steps = leaf_steps(e, geometry, applied_of(before), per_mille);
            let settled = entry_replay(before, e.id, steps, outcomes, steps.len() as int);
            &&& settled matches Some(node)
            &&& node.id == e.id
            &&& shows(node.applied, e, geometry, per_mille)
            &&& leaf_steps(e, geometry, Some(node.applied), per_mille) == Seq::<Step>::empty()
        }),
{
    let retained = applied_of(before);
    let steps = leaf_steps(e, geometry, retained, per_mille);
    let n = steps.len() as int;
    let from: int = if before is None {
        1
    } else {
        0
    };
    let applied = match retained {
        Some(a) => a,
        None => blank_attributes(),
    };
    let pending = changes(e, geometry, applied, per_mille);
    assert(steps.subrange(from, n) =~= pending);
    if before is None {
        assert(steps[0] == create_step(e));
        assert(succeeded(steps[0].op, outcome_at(outcomes, 0)));
        assert(entry_replay(before, e.id, steps, outcomes, 0) is None);
        assert(entry_replay(before, e.id, steps, outcomes, 1) is Some);
    }
    assert forall|j: int| from <= j < n implies (#[trigger] steps[j]).element == e.id && !is_create(
        steps[j].op,
    ) && !(steps[j].op is Destroy) && !(steps[j].op is Forget) && outcome_at(outcomes, j) is Done by {
        lemma_leaf_steps(e, geometry, retained, per_mille, j);
        assert(succeeded(steps[j].op, outcome_at(outcomes, j)));
    }
    lemma_sets_are_recorded(before, e.id, steps, outcomes, from, n);
    lemma_changes_settle(applied, e, geometry, per_mille);
    let node = entry_replay(before, e.id, steps, outcomes, n).unwrap();
    lemma_shown_leaf_needs_nothing(node.applied, e, geometry, per_mille);
}

/// Every leaf below `e` is retained and its objects show what it asks for.
pub open spec fn settled(
    e: Element,
    placements: Seq<Placement>,
    nodes: Seq<RetainedView>,
    per_mille: int,
) -> bool
    decreases e,
{
    match e.kind {
        ElementKind::Container { children, .. } => all_settled(
            children@,
            placements,
            nodes,
            per_mille,
            0,
        ),
        ElementKind::Empty => true,
        _ => attributes_of(nodes, e.id) matches Some(applied) && shows(
            applied,
            e,
            geometry_of(placements, e.id),
            per_mille,
        ),
    }
}

/// Every leaf below the children from `from` on is settled.
pub open spec fn all_settled(
    cs: Seq<Element>,
    placements: Seq<Placement>,
    nodes: Seq<RetainedView>,
    per_mille: int,
    from: int,
) -> bool
    decreases cs, cs.len() - from,
{
    if 0 <= from < cs.len() {
        settled(cs[from], placements, nodes, per_mille) && all_settled(
            cs,
            placements,
            nodes,
            per_mille,
            from + 1,
        )
    } else {
        true
    }
}

/// A part of the tree in which every leaf is retained and asks for what its
/// objects show already gets no step at all: neither a create step nor a
/// set step.
pub proof fn lemma_settled_needs_nothing(
    e: Element,
    placements: Seq<Placement>,
    nodes: Seq<RetainedView>,
    per_mille: int,
)
    requires
        settled(e, placements, nodes, per_mille),
    ensures
        node_steps(e, placements, nodes, per_mille) == Seq::<Step>::empty(),
    decreases e,
{
    match e.kind {
        ElementKind::Container { children, .. } => {
            lemma_all_settled_need_nothing(e, children@, placements, nodes, per_mille, 0);
        },
        ElementKind::Empty => {},
        _ => {
            lemma_shown_leaf_needs_nothing(
                attributes_of(nodes, e.id).unwrap(),
                e,
                geometry_of(placements, e.id),
                per_mille,
            );
        },
    }
}

/// See [`lemma_settled_needs_nothing`].
pub proof fn lemma_all_settled_need_nothing(
    e: Element,
    cs: Seq<Element>,
    placements: Seq<Placement>,
    nodes: Seq<RetainedView>,
    per_mille: int,
    from: int,
)
    requires
        e.kind is Container,
        e.kind->children@ == cs,
        0 <= from,
        all_settled(cs, placements, nodes, per_mille, from),
    ensures
        children_steps(cs, placements, nodes, per_mille, from) == Seq::<Step>::empty(),
    decreases e, cs.len() - from,
{
    if from < cs.len() {
        lemma_settled_needs_nothing(cs[from], placements, nodes, per_mille);
        lemma_all_settled_need_nothing(e, cs, placements, nodes, per_mille, from + 1);
        assert(children_steps(cs, placements, nodes, per_mille, from) =~= Seq::<Step>::empty());
    }
}


/// The outcomes from the index `offset` on.
pub open spec fn shifted(outcomes: Seq<Outcome>, offset: int) -> Seq<Outcome> {
    Seq::new(
        if outcomes.len() >= offset {
            (outcomes.len() - offset) as nat
        } else {
            0
        },
        |j: int| outcomes[offset + j],
    )
}

/// What is remembered of a node after some steps does not depend on the
/// steps that follow.
pub proof fn lemma_replay_prefix(
    before: Option<RetainedView>,
    id: ElementId,
    a: Seq<Step>,
    b: Seq<Step>,
    outcomes: Seq<Outcome>,
    upto: int,
)
    requires
        0 <= upto <= a.len(),
    ensures
        entry_replay(before, id, a + b, outcomes, upto) == entry_replay(
            before,
            id,
            a,
            outcomes,
            upto,
        ),
    decreases upto,
{
    if upto > 0 {
        lemma_replay_prefix(before, id, a, b, outcomes, upto - 1);
        assert((a + b)[upto - 1] == a[upto - 1]);
    }
}

/// Carrying out two runs of steps is carrying out the first and then, from
/// what it leaves and with the outcomes that remain, the second.
pub proof fn lemma_replay_concat(
    before: Option<RetainedView>,
    id: ElementId,
    a: Seq<Step>,
    b: Seq<Step>,
    outcomes: Seq<Outcome>,
    upto: int,
)
    requires
        0 <= upto <= b.len(),
    ensures
        entry_replay(before, id, a + b, outcomes, a.len() + upto) == entry_replay(
            entry_replay(before, id, a, outcomes, a.len() as int),
            id,
            b,
            shifted(outcomes, a.len() as int),
            upto,
        ),
    decreases upto,
{
    if upto == 0 {
        lemma_replay_prefix(before, id, a, b, outcomes, a.len() as int);
    } else {
        lemma_replay_concat(before, id, a, b, outcomes, upto - 1);
        assert((a + b)[a.len() + upto - 1] == b[upto - 1]);
        assert(outcome_at(outcomes, a.len() + upto - 1) == outcome_at(
            shifted(outcomes, a.len() as int),
            upto - 1,
        ));
    }
}

/// Steps that do not name a node leave what is remembered of it as it is.
pub proof fn lemma_replay_unnamed(
    before: Option<RetainedView>,
    id: ElementId,
    steps: Seq<Step>,
    outcomes: Seq<Outcome>,
    upto: int,
)
    requires
        0 <= upto <= steps.len(),
        forall|k: int| 0 <= k < steps.len() ==> (#[trigger] steps[k]).element != id,
    ensures
        entry_replay(before, id, steps, outcomes, upto) == before,
    decreases upto,
{
    if upto > 0 {
        lemma_replay_unnamed(before, id, steps, outcomes, upto - 1);
        assert(steps[upto - 1].element != id);
    }
}

/// The number of leaves below `e` that have the identity `id`.
pub open spec fn leaves_named(e: Element, id: ElementId) -> nat
    decreases e,
{
    match e.kind {
        ElementKind::Container { children, .. } => leaves_named_in(children@, id, 0),
        ElementKind::Empty => 0,
        _ => if e.id == id {
            1
        } else {
            0
        },
    }
}

/// The number of leaves below the children from `from` on that have the
/// identity `id`.
pub open spec fn leaves_named_in(cs: Seq<Element>, id: ElementId, from: int) -> nat
    decreases cs, cs.len() - from,
{
    if 0 <= from < cs.len() {
        leaves_named(cs[from], id) + leaves_named_in(cs, id, from + 1)
    } else {
        0
    }
}

/// The first leaf below `e` that has the identity `id`.
pub open spec fn leaf_named(e: Element, id: ElementId) -> Option<Element>
    decreases e,
{
    match e.kind {
        ElementKind::Container { children, .. } => leaf_named_in(children@, id, 0),
        ElementKind::Empty => None,
        _ => if e.id == id {
            Some(e)
        } else {
            None
        },
    }
}

/// The first leaf below the children from `from` on that has the identity `id`.
pub open spec fn leaf_named_in(cs: Seq<Element>, id: ElementId, from: int) -> Option<Element>
    decreases cs, cs.len() - from,
{
    if 0 <= from < cs.len() {
        match leaf_named(cs[from], id) {
            Some(leaf) => Some(leaf),
            None => leaf_named_in(cs, id, from + 1),
        }
    } else {
        None
    }
}

/// Where no leaf has the identity, no step of the walk names it and no
/// leaf of that name is found; where a leaf has it, the tree has it.
pub proof fn lemma_leaves_named(
    e: Element,
    id: ElementId,
    placements: Seq<Placement>,
    nodes: Seq<RetainedView>,
    per_mille: int,
)
    ensures
        leaves_named(e, id) == 0 ==> leaf_named(e, id) is None && forall|k: int|
            0 <= k < node_steps(e, placements, nodes, per_mille).len() ==> (#[trigger] node_steps(
                e,
                placements,
                nodes,
                per_mille,
            )[k]).element != id,
        leaves_named(e, id) > 0 ==> has_id(e, id),
    decreases e,
{
    let steps = node_steps(e, placements, nodes, per_mille);
    match e.kind {
        ElementKind::Container { children, .. } => {
            lemma_leaves_named_in(e, children@, id, placements, nodes, per_mille, 0);
        },
        ElementKind::Empty => {},
        _ => {
            assert forall|k: int| 0 <= k < steps.len() implies (#[trigger] steps[k]).element
                == e.id by {
                lemma_leaf_steps(
                    e,
                    geometry_of(placements, e.id),
                    attributes_of(nodes, e.id),
                    per_mille,
                    k,
                );
            }
        },
    }
}

/// See [`lemma_leaves_named`].
pub proof fn lemma_leaves_named_in(
    e: Element,
    cs: Seq<Element>,
    id: ElementId,
    placements: Seq<Placement>,
    nodes: Seq<RetainedView>,
    per_mille: int,
    from: int,
)
    requires
        e.kind is Container,
        e.kind->children@ == cs,
        0 <= from,
    ensures
        leaves_named_in(cs, id, from) == 0 ==> leaf_named_in(cs, id, from) is None && forall|
            k: int,
        |
            0 <= k < children_steps(cs, placements, nodes, per_mille, from).len() ==> (
            #[trigger] children_steps(cs, placements, nodes, per_mille, from)[k]).element != id,
        leaves_named_in(cs, id, from) > 0 ==> any_has_id(cs, id, from),
    decreases e, cs.len() - from,
{
    if from < cs.len() {
        let head = node_steps(cs[from], placements, nodes, per_mille);
        let tail = children_steps(cs, placements, nodes, per_mille, from + 1);
        lemma_leaves_named(cs[from], id, placements, nodes, per_mille);
        lemma_leaves_named_in(e, cs, id, placements, nodes, per_mille, from + 1);
        if leaves_named_in(cs, id, from) == 0 {
            assert forall|k: int| 0 <= k < (head + tail).len() implies (#[trigger] (head
                + tail)[k]).element != id by {
                if k < head.len() {
                    assert((head + tail)[k] == head[k]);
                } else {
                    assert((head + tail)[k] == tail[k - head.len()]);
                }
            }
        }
    }
}

/// Every step of the frame that names the node was carried out.
pub open spec fn carried_out_for(steps: Seq<Step>, outcomes: Seq<Outcome>, id: ElementId) -> bool {
    forall|k: int|
        0 <= k < steps.len() && (#[trigger] steps[k]).element == id ==> succeeded(
            steps[k].op,
            outcome_at(outcomes, k),
        )
}

/// Where exactly one leaf below `e` has the identity `id` and every step
/// for it is carried out, the walk over `e` leaves the leaf retained, with
/// objects that show what it asks for.
pub proof fn lemma_walk_settles(
    e: Element,
    id: ElementId,
    placements: Seq<Placement>,
    nodes: Seq<RetainedView>,
    per_mille: int,
    outcomes: Seq<Outcome>,
)
    requires
        leaves_named(e, id) == 1,
        carried_out_for(node_steps(e, placements, nodes, per_mille), outcomes, id),
    ensures
        leaf_named(e, id) is Some,
        ({
            let steps = node_steps(e, placements, nodes, per_mille);
            let settled = entry_replay(entry(nodes, id), id, steps, outcomes, steps.len() as int);
            &&& settled matches Some(node)
            &&& node.id == id
            &&& shows(
                node.applied,
                leaf_named(e, id).unwrap(),
                geometry_of(placements, id),
                per_mille,
            )
        }),
    decreases e,
{
    let steps = node_steps(e, placements, nodes, per_mille);
    match e.kind {
        ElementKind::Container { children, .. } => {
            lemma_children_walk_settle(e, children@, id, placements, nodes, per_mille, outcomes, 0);
        },
        ElementKind::Empty => {},
        _ => {
            lemma_find_from(nodes, id, 0);
            assert(applied_of(entry(nodes, id)) == attributes_of(nodes, id));
            lemma_leaf_settles(
                entry(nodes, id),
                e,
                geometry_of(placements, id),
                per_mille,
                outcomes,
            );
        },
    }
}

/// See [`lemma_walk_settles`].
pub proof fn lemma_children_walk_settle(
    e: Element,
    cs: Seq<Element>,
    id: ElementId,
    placements: Seq<Placement>,
    nodes: Seq<RetainedView>,
    per_mille: int,
    outcomes: Seq<Outcome>,
    from: int,
)
    requires
        e.kind is Container,
        e.kind->children@ == cs,
        0 <= from,
        leaves_named_in(cs, id, from) == 1,
        carried_out_for(children_steps(cs, placements, nodes, per_mille, from), outcomes, id),
    ensures
        leaf_named_in(cs, id, from) is Some,
        ({
            let steps = children_steps(cs, placements, nodes, per_mille, from);
            let settled = entry_replay(entry(nodes, id), id, steps, outcomes, steps.len() as int);
            &&& settled matches Some(node)
            &&& node.id == id
            &&& shows(
                node.applied,
                leaf_named_in(cs, id, from).unwrap(),
                geometry_of(placements, id),
                per_mille,
            )
        }),
    decreases e, cs.len() - from,
{
    let head = node_steps(cs[from], placements, nodes, per_mille);
    let tail = children_steps(cs, placements, nodes, per_mille, from + 1);
    let steps = head + tail;
    let before = entry(nodes, id);
    let rest = shifted(outcomes, head.len() as int);
    lemma_replay_concat(before, id, head, tail, outcomes, tail.len() as int);
    lemma_leaves_named(cs[from], id, placements, nodes, per_mille);
    lemma_leaves_named_in(e, cs, id, placements, nodes, per_mille, from + 1);
    assert forall|k: int| 0 <= k < head.len() && (#[trigger] head[k]).element == id implies succeeded(
        head[k].op,
        outcome_at(outcomes, k),
    ) by {
        assert(steps[k] == head[k]);
    }
    assert forall|k: int| 0 <= k < tail.len() && (#[trigger] tail[k]).element == id implies succeeded(
        tail[k].op,
        outcome_at(rest, k),
    ) by {
        assert(steps[head.len() + k] == tail[k]);
        assert(outcome_at(rest, k) == outcome_at(outcomes, head.len() + k));
    }
    if leaves_named(cs[from], id) == 1 {
        lemma_walk_settles(cs[from], id, placements, nodes, per_mille, outcomes);
        lemma_replay_unnamed(
            entry_replay(before, id, head, outcomes, head.len() as int),
            id,
            tail,
            rest,
            tail.len() as int,
        );
    } else {
        lemma_replay_unnamed(before, id, head, outcomes, head.len() as int);
        lemma_children_walk_settle(e, cs, id, placements, nodes, per_mille, rest, from + 1);
    }
}

/// When a frame is over in which every step for a leaf was carried out,
/// the leaf is retained and its objects show what it asks for, whatever
/// became of the steps for other nodes.  The leaf must be the only one of
/// its identity.
pub proof fn lemma_frame_settles(
    nodes: Seq<RetainedView>,
    root: Element,
    id: ElementId,
    placements: Seq<Placement>,
    per_mille: int,
    outcomes: Seq<Outcome>,
)
    requires
        distinct(nodes),
        leaves_named(root, id) == 1,
        carried_out_for(plan(root, placements, nodes, per_mille), outcomes, id),
    ensures
        leaf_named(root, id) is Some,
        ({
            let steps = plan(root, placements, nodes, per_mille);
            let retained = replay(nodes, steps, outcomes, steps.len() as int);
            &&& distinct(retained)
            &&& attributes_of(retained, id) matches Some(applied)
            &&& shows(
                applied,
                leaf_named(root, id).unwrap(),
                geometry_of(placements, id),
                per_mille,
            )
        }),
{
    let walk = node_steps(root, placements, nodes, per_mille);
    let removal = removal_steps(nodes, root, 0);
    let steps = walk + removal;
    let before = entry(nodes, id);
    lemma_replay_is_local(nodes, id, steps, outcomes, steps.len() as int);
    lemma_replay_concat(before, id, walk, removal, outcomes, removal.len() as int);
    assert forall|k: int| 0 <= k < walk.len() && (#[trigger] walk[k]).element == id implies succeeded(
        walk[k].op,
        outcome_at(outcomes, k),
    ) by {
        assert(steps[k] == walk[k]);
    }
    lemma_walk_settles(root, id, placements, nodes, per_mille, outcomes);
    lemma_leaves_named(root, id, placements, nodes, per_mille);
    lemma_removal_steps(nodes, root, 0);
    assert forall|k: int| 0 <= k < removal.len() implies (#[trigger] removal[k]).element != id by {
        assert(is_removal_step(root, nodes, removal[k]));
    }
    lemma_replay_unnamed(
        entry_replay(before, id, walk, outcomes, walk.len() as int),
        id,
        removal,
        shifted(outcomes, walk.len() as int),
        removal.len() as int,
    );
}

/// Two leaves ask for the same of their objects.
pub open spec fn same_look(a: Element, b: Element) -> bool {
    &&& color_of(a) == color_of(b)
    &&& rotation_of(a) == rotation_of(b)
    &&& match a.kind {
        ElementKind::Rect { roundedness } => b.kind == a.kind,
        ElementKind::Text { content, font_size } => b.kind matches ElementKind::Text {
            content: other,
            font_size: other_size,
        } && other@ == content@ && other_size == font_size,
        _ => false,
    }
}

/// Every leaf below `e` that has the identity `id` asks for the same as `leaf`.
pub open spec fn looks_like(e: Element, id: ElementId, leaf: Element) -> bool
    decreases e,
{
    match e.kind {
        ElementKind::Container { children, .. } => all_look_like(children@, id, leaf, 0),
        ElementKind::Empty => true,
        _ => e.id == id ==> same_look(leaf, e),
    }
}

/// See [`looks_like`].
pub open spec fn all_look_like(cs: Seq<Element>, id: ElementId, leaf: Element, from: int) -> bool
    decreases cs, cs.len() - from,
{
    if 0 <= from < cs.len() {
        looks_like(cs[from], id, leaf) && all_look_like(cs, id, leaf, from + 1)
    } else {
        true
    }
}

/// Where the objects of a node show what every leaf of its identity asks
/// for, the walk has no step for the node.
pub proof fn lemma_walk_leaves_alone(
    e: Element,
    id: ElementId,
    leaf: Element,
    placements: Seq<Placement>,
    nodes: Seq<RetainedView>,
    per_mille: int,
)
    requires
        looks_like(e, id, leaf),
        attributes_of(nodes, id) matches Some(applied) && shows(
            applied,
            leaf,
            geometry_of(placements, id),
            per_mille,
        ),
    ensures
        forall|k: int|
            0 <= k < node_steps(e, placements, nodes, per_mille).len() ==> (#[trigger] node_steps(
                e,
                placements,
                nodes,
                per_mille,
            )[k]).element != id,
    decreases e,
{
    let steps = node_steps(e, placements, nodes, per_mille);
    match e.kind {
        ElementKind::Container { children, .. } => {
            lemma_children_walk_leaves_alone(e, children@, id, leaf, placements, nodes, per_mille, 0);
        },
        ElementKind::Empty => {},
        _ => {
            if e.id == id {
                let applied = attributes_of(nodes, id).unwrap();
                assert(shows(applied, e, geometry_of(placements, id), per_mille));
                lemma_shown_leaf_needs_nothing(applied, e, geometry_of(placements, id), per_mille);
            } else {
                assert forall|k: int| 0 <= k < steps.len() implies (#[trigger] steps[k]).element
                    != id by {
                    lemma_leaf_steps(
                        e,
                        geometry_of(placements, e.id),
                        attributes_of(nodes, e.id),
                        per_mille,
                        k,
                    );
                }
            }
        },
    }
}

/// See [`lemma_walk_leaves_alone`].
pub proof fn lemma_children_walk_leaves_alone(
    e: Element,
    cs: Seq<Element>,
    id: ElementId,
    leaf: Element,
    placements: Seq<Placement>,
    nodes: Seq<RetainedView>,
    per_mille: int,
    from: int,
)
    requires
        e.kind is Container,
        e.kind->children@ == cs,
        0 <= from,
        all_look_like(cs, id, leaf, from),
        attributes_of(nodes, id) matches Some(applied) && shows(
            applied,
            leaf,
            geometry_of(placements, id),
            per_mille,
        ),
    ensures
        forall|k: int|
            0 <= k < children_steps(cs, placements, nodes, per_mille, from).len() ==> (
            #[trigger] children_steps(cs, placements, nodes, per_mille, from)[k]).element != id,
    decreases e, cs.len() - from,
{
    if from < cs.len() {
        let head = node_steps(cs[from], placements, nodes, per_mille);
        let tail = children_steps(cs, placements, nodes, per_mille, from + 1);
        lemma_walk_leaves_alone(cs[from], id, leaf, placements, nodes, per_mille);
        lemma_children_walk_leaves_alone(e, cs, id, leaf, placements, nodes, per_mille, from + 1);
        assert forall|k: int| 0 <= k < (head + tail).len() implies (#[trigger] (head
            + tail)[k]).element != id by {
            if k < head.len() {
                assert((head + tail)[k] == head[k]);
            } else {
                assert((head + tail)[k] == tail[k - head.len()]);
            }
        }
    }
}

/// A leaf that stays as it is gets no step in the next frame.
///
/// In the first frame the leaf of identity `id` is the only one of its
/// identity, and every step for it is carried out.  In the next frame the
/// tree still has the identity, every leaf that has it asks for the same as
/// before, and its box and the scale are what they were.  Then no step of
/// the next frame names the leaf, whatever else changed in the tree.
pub proof fn lemma_unchanged_leaf_is_left_alone(
    nodes: Seq<RetainedView>,
    root: Element,
    id: ElementId,
    placements: Seq<Placement>,
    per_mille: int,
    outcomes: Seq<Outcome>,
    next_root: Element,
    next_placements: Seq<Placement>,
    k: int,
)
    requires
        distinct(nodes),
        leaves_named(root, id) == 1,
        carried_out_for(plan(root, placements, nodes, per_mille), outcomes, id),
        has_id(next_root, id),
        leaf_named(root, id) matches Some(leaf) ==> looks_like(next_root, id, leaf),
        geometry_of(next_placements, id) == geometry_of(placements, id),
        0 <= k < plan(
            next_root,
            next_placements,
            replay(
                nodes,
                plan(root, placements, nodes, per_mille),
                outcomes,
                plan(root, placements, nodes, per_mille).len() as int,
            ),
            per_mille,
        ).len(),
    ensures
        plan(
            next_root,
            next_placements,
            replay(
                nodes,
                plan(root, placements, nodes, per_mille),
                outcomes,
                plan(root, placements, nodes, per_mille).len() as int,
            ),
            per_mille,
        )[k].element != id,
{
    let steps = plan(root, placements, nodes, per_mille);
    let retained = replay(nodes, steps, outcomes, steps.len() as int);
    lemma_frame_settles(nodes, root, id, placements, per_mille, outcomes);
    let leaf = leaf_named(root, id).unwrap();
    let walk = node_steps(next_root, next_placements, retained, per_mille);
    let removal = removal_steps(retained, next_root, 0);
    lemma_walk_leaves_alone(next_root, id, leaf, next_placements, retained, per_mille);
    lemma_removal_steps(retained, next_root, 0);
    if k < walk.len() {
        assert((walk + removal)[k] == walk[k]);
    } else {
        assert((walk + removal)[k] == removal[k - walk.len()]);
        assert(is_removal_step(next_root, retained, removal[k - walk.len()]));
    }
}


/// The object `h` stands for the node at `i`, as its object number `a`.
pub open spec fn held_at(nodes: Seq<RetainedView>, i: int, a: int, h: ObjectId) -> bool {
    0 <= i < nodes.len() && 0 <= a < nodes[i].handles.len() && nodes[i].handles[a] == h
}

/// Some node holds the object `h`.
pub open spec fn holds(nodes: Seq<RetainedView>, h: ObjectId) -> bool {
    exists|i: int, a: int| held_at(nodes, i, a, h)
}

/// No object stands for two nodes, nor twice for one.
pub open spec fn unshared(nodes: Seq<RetainedView>) -> bool {
    forall|i: int, a: int, j: int, b: int, h: ObjectId|
        #[trigger] held_at(nodes, i, a, h) && #[trigger] held_at(nodes, j, b, h) ==> i == j && a
            == b
}

/// As long as the backend never hands out a handle that is still held, no
/// object ever stands for two nodes.
pub proof fn lemma_handles_stay_unshared(nodes: Seq<RetainedView>, step: Step, outcome: Outcome)
    requires
        unshared(nodes),
        outcome matches Outcome::Created(h) ==> !holds(nodes, h),
    ensures
        unshared(after(nodes, step, outcome)),
{
    let next = after(nodes, step, outcome);
    lemma_find_from(nodes, step.element, 0);
    assert forall|i: int, a: int, j: int, b: int, h: ObjectId| #[trigger]
        held_at(next, i, a, h) && #[trigger] held_at(next, j, b, h) implies i == j && a == b by {
        match find(nodes, step.element) {
            Some(k) => {
                if next.len() < nodes.len() {
                    // The node at `k` is gone; the others moved up.
                    let from_i = if i < k {
                        i
                    } else {
                        i + 1
                    };
                    let from_j = if j < k {
                        j
                    } else {
                        j + 1
                    };
                    assert(next[i] == nodes[from_i]);
                    assert(next[j] == nodes[from_j]);
                    assert(held_at(nodes, from_i, a, h));
                    assert(held_at(nodes, from_j, b, h));
                } else if is_create(step.op) && outcome is Created {
                    // The node at `k` holds one object more, which nobody held.
                    let fresh = outcome->Created_0;
                    let old_len = nodes[k].handles.len() as int;
                    assert(next[i].handles.len() == nodes[i].handles.len() + if i == k {
                        1int
                    } else {
                        0int
                    });
                    assert(next[j].handles.len() == nodes[j].handles.len() + if j == k {
                        1int
                    } else {
                        0int
                    });
                    if i == k && a == old_len {
                        if !(j == k && b == old_len) {
                            assert(held_at(nodes, j, b, fresh));
                        }
                    } else if j == k && b == old_len {
                        assert(held_at(nodes, i, a, fresh));
                    } else {
                        assert(held_at(nodes, i, a, h));
                        assert(held_at(nodes, j, b, h));
                    }
                } else {
                    // Every node holds the objects it held.
                    assert(next[i].handles == nodes[i].handles);
                    assert(next[j].handles == nodes[j].handles);
                    assert(held_at(nodes, i, a, h));
                    assert(held_at(nodes, j, b, h));
                }
            },
            None => {
                if next.len() > nodes.len() {
                    // A new node holds one object, which nobody held.
                    let n = nodes.len() as int;
                    let fresh = outcome->Created_0;
                    assert(next[n].handles == seq![fresh]);
                    if i == n {
                        if j != n {
                            assert(next[j] == nodes[j]);
                            assert(held_at(nodes, j, b, fresh));
                        }
                    } else if j == n {
                        assert(next[i] == nodes[i]);
                        assert(held_at(nodes, i, a, fresh));
                    } else {
                        assert(next[i] == nodes[i]);
                        assert(next[j] == nodes[j]);
                        assert(held_at(nodes, i, a, h));
                        assert(held_at(nodes, j, b, h));
                    }
                } else {
                    assert(next == nodes);
                }
            },
        }
    }
}


} // verus!
