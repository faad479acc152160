//! What a build leaves behind: the objects that its steps make, and how they
//! hang together.

use vstd::prelude::*;

use crate::bigint::hex_of;
use crate::plan::nothing;
use crate::plan::plan_entries;
use crate::plan::plan_items;
use crate::plan::plan_members;
use crate::plan::plan_pairs;
use crate::plan::plan_value;
use crate::plan::too_long;
use crate::plan::Plan;
use crate::plan::Side;
use crate::plan::Step;
use crate::value::JsTree;
use crate::value::MAX_MARSHAL_DEPTH;

verus! {

/// What stands behind one step of a build. Values are referred to by the step
/// that made them.
pub enum Node {
    Leaf(JsTree),
    Integer { negative: bool, hex: Seq<char> },
    Array(Seq<nat>),
    Obj(Seq<(Seq<char>, nat)>),
    JsMap(Seq<(nat, nat)>),
    JsSet(Seq<nat>),
    /// The step made no value.
    Filling,
}

impl Node {
    /// The node has an identity of its own.
    pub open spec fn is_object(self) -> bool {
        match self {
            Node::Leaf(t) => t is Bytes,
            Node::Array(_) | Node::Obj(_) | Node::JsMap(_) | Node::JsSet(_) => true,
            _ => false,
        }
    }
}

/// A container with one more thing at its end.
pub open spec fn with_more(node: Node, step: Step) -> Node {
    match (node, step) {
        (Node::Array(items), Step::SetIndex { index, value, .. }) => if index == items.len() {
            Node::Array(items.push(value))
        } else {
            node
        },
        (Node::Obj(entries), Step::SetKey { key, value, .. }) => Node::Obj(
            entries.push((key, value)),
        ),
        (Node::JsMap(pairs), Step::MapSet { key, value, .. }) => Node::JsMap(
            pairs.push((key, value)),
        ),
        (Node::JsSet(items), Step::SetAdd { value, .. }) => Node::JsSet(items.push(value)),
        _ => node,
    }
}

/// The container that a step fills.
pub open spec fn filled_by(step: Step) -> nat {
    match step {
        Step::SetIndex { array, .. } => array,
        Step::SetKey { object, .. } => object,
        Step::MapSet { map, .. } => map,
        Step::SetAdd { set, .. } => set,
        _ => 0,
    }
}

/// The nodes after one more step.
pub open spec fn after_step(nodes: Seq<Node>, step: Step) -> Seq<Node> {
    match step {
        Step::Make(t) => nodes.push(Node::Leaf(t)),
        Step::MakeInteger { negative, hex } => nodes.push(Node::Integer { negative, hex }),
        Step::NewArray(_) => nodes.push(Node::Array(seq![])),
        Step::NewObject => nodes.push(Node::Obj(seq![])),
        Step::NewMap => nodes.push(Node::JsMap(seq![])),
        Step::NewSet => nodes.push(Node::JsSet(seq![])),
        _ => {
            let at = filled_by(step) as int;
            if at < nodes.len() {
                nodes.update(at, with_more(nodes[at], step)).push(Node::Filling)
            } else {
                nodes.push(Node::Filling)
            }
        },
    }
}

/// The nodes that some steps leave behind, if the engine keeps whatever is put
/// into a container, in the order in which it is put there.
pub open spec fn layout(steps: Seq<Step>) -> Seq<Node>
    decreases steps.len(),
{
    if steps.len() == 0 {
        seq![]
    } else {
        after_step(layout(steps.drop_last()), steps.last())
    }
}

proof fn lemma_layout_push(steps: Seq<Step>, step: Step)
    ensures
        layout(steps.push(step)) == after_step(layout(steps), step),
        layout(steps).len() == steps.len(),
    decreases steps.len(),
{
    assert(steps.push(step).drop_last() =~= steps);
    if steps.len() > 0 {
        lemma_layout_push(steps.drop_last(), steps.last());
        assert(steps.drop_last().push(steps.last()) =~= steps);
    }
}

/// The number of ids given out once a tree has been written, `lo` ids having
/// been given out before it; nothing if the tree is not one that a reader
/// writes. Ids are given out in the order in which objects are met, and a
/// reference points to an object that was met before.
pub open spec fn well_numbered(t: JsTree, lo: nat, depth: nat) -> Option<nat>
    decreases t,
{
    match t {
        JsTree::Ref(j) => if j < lo {
            Some(lo)
        } else {
            None
        },
        JsTree::Bytes { id, .. } => if id == Some(lo) {
            Some(lo + 1)
        } else {
            None
        },
        JsTree::Array { id, items } => if id == lo && depth < MAX_MARSHAL_DEPTH {
            items_numbered(items, lo + 1, depth + 1)
        } else {
            None
        },
        JsTree::JsSet { id, items } => if id == lo && depth < MAX_MARSHAL_DEPTH {
            items_numbered(items, lo + 1, depth + 1)
        } else {
            None
        },
        JsTree::Obj { id, entries } => if id == lo && depth < MAX_MARSHAL_DEPTH {
            entries_well_numbered(entries, lo + 1, depth + 1)
        } else {
            None
        },
        JsTree::JsMap { id, pairs } => if id == lo && depth < MAX_MARSHAL_DEPTH {
            pairs_well_numbered(pairs, lo + 1, depth + 1)
        } else {
            None
        },
        _ => Some(lo),
    }
}

pub open spec fn items_numbered(items: Seq<JsTree>, lo: nat, depth: nat) -> Option<nat>
    decreases items,
{
    if items.len() == 0 {
        Some(lo)
    } else {
        match items_numbered(items.drop_last(), lo, depth) {
            Some(mid) => well_numbered(items.last(), mid, depth),
            None => None,
        }
    }
}

pub open spec fn entries_well_numbered(
    entries: Seq<(Seq<char>, JsTree)>,
    lo: nat,
    depth: nat,
) -> Option<nat>
    decreases entries,
{
    if entries.len() == 0 {
        Some(lo)
    } else {
        match entries_well_numbered(entries.drop_last(), lo, depth) {
            Some(mid) => well_numbered(entries.last().1, mid, depth),
            None => None,
        }
    }
}

pub open spec fn pairs_well_numbered(
    pairs: Seq<(JsTree, JsTree)>,
    lo: nat,
    depth: nat,
) -> Option<nat>
    decreases pairs,
{
    if pairs.len() == 0 {
        Some(lo)
    } else {
        match pairs_well_numbered(pairs.drop_last(), lo, depth) {
            Some(mid) => match well_numbered(pairs.last().0, mid, depth) {
                Some(end) => well_numbered(pairs.last().1, end, depth),
                None => None,
            },
            None => None,
        }
    }
}

/// Ids are only ever given out.
pub proof fn lemma_numbers_grow(t: JsTree, lo: nat, depth: nat)
    ensures
        well_numbered(t, lo, depth) matches Some(hi) ==> lo <= hi,
    decreases t,
{
    match t {
        JsTree::Array { id, items } => lemma_item_numbers_grow(items, lo + 1, depth + 1),
        JsTree::JsSet { id, items } => lemma_item_numbers_grow(items, lo + 1, depth + 1),
        JsTree::Obj { id, entries } => lemma_entry_numbers_grow(entries, lo + 1, depth + 1),
        JsTree::JsMap { id, pairs } => lemma_pair_numbers_grow(pairs, lo + 1, depth + 1),
        _ => {},
    }
}

pub proof fn lemma_item_numbers_grow(items: Seq<JsTree>, lo: nat, depth: nat)
    ensures
        items_numbered(items, lo, depth) matches Some(hi) ==> lo <= hi,
    decreases items,
{
    if items.len() > 0 {
        lemma_item_numbers_grow(items.drop_last(), lo, depth);
        if let Some(mid) = items_numbered(items.drop_last(), lo, depth) {
            lemma_numbers_grow(items.last(), mid, depth);
        }
    }
}

pub proof fn lemma_entry_numbers_grow(entries: Seq<(Seq<char>, JsTree)>, lo: nat, depth: nat)
    ensures
        entries_well_numbered(entries, lo, depth) matches Some(hi) ==> lo <= hi,
    decreases entries,
{
    if entries.len() > 0 {
        lemma_entry_numbers_grow(entries.drop_last(), lo, depth);
        if let Some(mid) = entries_well_numbered(entries.drop_last(), lo, depth) {
            lemma_numbers_grow(entries.last().1, mid, depth);
        }
    }
}

pub proof fn lemma_pair_numbers_grow(pairs: Seq<(JsTree, JsTree)>, lo: nat, depth: nat)
    ensures
        pairs_well_numbered(pairs, lo, depth) matches Some(hi) ==> lo <= hi,
    decreases pairs,
{
    if pairs.len() > 0 {
        lemma_pair_numbers_grow(pairs.drop_last(), lo, depth);
        if let Some(mid) = pairs_well_numbered(pairs.drop_last(), lo, depth) {
            lemma_numbers_grow(pairs.last().0, mid, depth);
            if let Some(end) = well_numbered(pairs.last().0, mid, depth) {
                lemma_numbers_grow(pairs.last().1, end, depth);
            }
        }
    }
}

/// Every text and key of a tree is one that the engine can make.
pub open spec fn texts_fit(side: Side, t: JsTree) -> bool
    decreases t,
{
    match t {
        JsTree::Str(text) => !too_long(side, text),
        JsTree::Array { items, .. } => forall|i: int|
            0 <= i < items.len() ==> texts_fit(side, #[trigger] items[i]),
        JsTree::JsSet { items, .. } => forall|i: int|
            0 <= i < items.len() ==> texts_fit(side, #[trigger] items[i]),
        JsTree::Obj { entries, .. } => forall|i: int|
            0 <= i < entries.len() ==> !too_long(side, (#[trigger] entries[i]).0) && texts_fit(
                side,
                entries[i].1,
            ),
        JsTree::JsMap { pairs, .. } => forall|i: int|
            0 <= i < pairs.len() ==> texts_fit(side, (#[trigger] pairs[i]).0) && texts_fit(
                side,
                pairs[i].1,
            ),
        _ => true,
    }
}

/// The node of a value without parts.
pub open spec fn leaf_node(side: Side, t: JsTree) -> Node {
    match t {
        JsTree::Undefined => Node::Leaf(nothing(side)),
        JsTree::BigInt { negative, words } => if side is Ruby {
            Node::Integer { negative, hex: hex_of(words) }
        } else {
            Node::Leaf(t)
        },
        _ => Node::Leaf(t),
    }
}

/// The value made by step `at` looks like the tree. `built` says which step made
/// the object with a given id; what hangs below the value was made from step
/// `from` on.
pub open spec fn image(
    side: Side,
    nodes: Seq<Node>,
    built: Map<nat, nat>,
    at: nat,
    t: JsTree,
    from: nat,
) -> bool
    decreases t,
{
    match t {
        JsTree::Ref(j) => built.contains_key(j) && built[j] == at,
        JsTree::Array { id, items } => from <= at < nodes.len() && built.contains_key(id)
            && built[id] == at && (nodes[at as int] matches Node::Array(slots) && images(
            side,
            nodes,
            built,
            slots,
            items,
            at + 1,
        )),
        JsTree::JsSet { id, items } => from <= at < nodes.len() && built.contains_key(id)
            && built[id] == at && (nodes[at as int] matches Node::JsSet(slots) && images(
            side,
            nodes,
            built,
            slots,
            items,
            at + 1,
        )),
        JsTree::Obj { id, entries } => from <= at < nodes.len() && built.contains_key(id)
            && built[id] == at && (nodes[at as int] matches Node::Obj(slots) && entry_images(
            side,
            nodes,
            built,
            slots,
            entries,
            at + 1,
        )),
        JsTree::JsMap { id, pairs } => from <= at < nodes.len() && built.contains_key(id)
            && built[id] == at && (nodes[at as int] matches Node::JsMap(slots) && pair_images(
            side,
            nodes,
            built,
            slots,
            pairs,
            at + 1,
        )),
        JsTree::Bytes { id, .. } => from <= at < nodes.len() && nodes[at as int] == Node::Leaf(t)
            && (id matches Some(k) ==> built.contains_key(k) && built[k] == at),
        _ => from <= at < nodes.len() && nodes[at as int] == leaf_node(side, t),
    }
}

pub open spec fn images(
    side: Side,
    nodes: Seq<Node>,
    built: Map<nat, nat>,
    slots: Seq<nat>,
    items: Seq<JsTree>,
    from: nat,
) -> bool
    decreases items,
{
    slots.len() == items.len() && (items.len() > 0 ==> images(
        side,
        nodes,
        built,
        slots.drop_last(),
        items.drop_last(),
        from,
    ) && image(side, nodes, built, slots.last(), items.last(), from))
}

pub open spec fn entry_images(
    side: Side,
    nodes: Seq<Node>,
    built: Map<nat, nat>,
    slots: Seq<(Seq<char>, nat)>,
    entries: Seq<(Seq<char>, JsTree)>,
    from: nat,
) -> bool
    decreases entries,
{
    slots.len() == entries.len() && (entries.len() > 0 ==> entry_images(
        side,
        nodes,
        built,
        slots.drop_last(),
        entries.drop_last(),
        from,
    ) && slots.last().0 == entries.last().0 && image(
        side,
        nodes,
        built,
        slots.last().1,
        entries.last().1,
        from,
    ))
}

pub open spec fn pair_images(
    side: Side,
    nodes: Seq<Node>,
    built: Map<nat, nat>,
    slots: Seq<(nat, nat)>,
    pairs: Seq<(JsTree, JsTree)>,
    from: nat,
) -> bool
    decreases pairs,
{
    slots.len() == pairs.len() && (pairs.len() > 0 ==> pair_images(
        side,
        nodes,
        built,
        slots.drop_last(),
        pairs.drop_last(),
        from,
    ) && image(side, nodes, built, slots.last().0, pairs.last().0, from) && image(
        side,
        nodes,
        built,
        slots.last().1,
        pairs.last().1,
        from,
    ))
}

/// The nodes from `from` up to `top` are the same, and every id that was known
/// is still known as the same object.
pub open spec fn kept(
    before: Seq<Node>,
    after: Seq<Node>,
    built: Map<nat, nat>,
    later: Map<nat, nat>,
    from: nat,
) -> bool {
    &&& before.len() <= after.len()
    &&& forall|k: int| from <= k < before.len() ==> #[trigger] after[k] == before[k]
    &&& forall|id: nat|
        #[trigger] built.contains_key(id) ==> later.contains_key(id) && later[id] == built[id]
}

/// An image stays one while its own nodes are kept.
proof fn lemma_image_kept(
    side: Side,
    before: Seq<Node>,
    after: Seq<Node>,
    built: Map<nat, nat>,
    later: Map<nat, nat>,
    at: nat,
    t: JsTree,
    from: nat,
    low: nat,
)
    requires
        image(side, before, built, at, t, from),
        low <= from,
        kept(before, after, built, later, low),
    ensures
        image(side, after, later, at, t, from),
    decreases t,
{
    match t {
        JsTree::Array { id, items } => {
            let slots = before[at as int]->Array_0;
            lemma_images_kept(side, before, after, built, later, slots, items, at + 1, low);
        },
        JsTree::JsSet { id, items } => {
            let slots = before[at as int]->JsSet_0;
            lemma_images_kept(side, before, after, built, later, slots, items, at + 1, low);
        },
        JsTree::Obj { id, entries } => {
            let slots = before[at as int]->Obj_0;
            lemma_entry_images_kept(side, before, after, built, later, slots, entries, at + 1, low);
        },
        JsTree::JsMap { id, pairs } => {
            let slots = before[at as int]->JsMap_0;
            lemma_pair_images_kept(side, before, after, built, later, slots, pairs, at + 1, low);
        },
        _ => {},
    }
}

proof fn lemma_images_kept(
    side: Side,
    before: Seq<Node>,
    after: Seq<Node>,
    built: Map<nat, nat>,
    later: Map<nat, nat>,
    slots: Seq<nat>,
    items: Seq<JsTree>,
    from: nat,
    low: nat,
)
    requires
        images(side, before, built, slots, items, from),
        low <= from,
        kept(before, after, built, later, low),
    ensures
        images(side, after, later, slots, items, from),
    decreases items,
{
    if items.len() > 0 {
        lemma_images_kept(
            side,
            before,
            after,
            built,
            later,
            slots.drop_last(),
            items.drop_last(),
            from,
            low,
        );
        lemma_image_kept(
            side,
            before,
            after,
            built,
            later,
            slots.last(),
            items.last(),
            from,
            low,
        );
    }
}

proof fn lemma_entry_images_kept(
    side: Side,
    before: Seq<Node>,
    after: Seq<Node>,
    built: Map<nat, nat>,
    later: Map<nat, nat>,
    slots: Seq<(Seq<char>, nat)>,
    entries: Seq<(Seq<char>, JsTree)>,
    from: nat,
    low: nat,
)
    requires
        entry_images(side, before, built, slots, entries, from),
        low <= from,
        kept(before, after, built, later, low),
    ensures
        entry_images(side, after, later, slots, entries, from),
    decreases entries,
{
    if entries.len() > 0 {
        lemma_entry_images_kept(
            side,
            before,
            after,
            built,
            later,
            slots.drop_last(),
            entries.drop_last(),
            from,
            low,
        );
        lemma_image_kept(
            side,
            before,
            after,
            built,
            later,
            slots.last().1,
            entries.last().1,
            from,
            low,
        );
    }
}

proof fn lemma_pair_images_kept(
    side: Side,
    before: Seq<Node>,
    after: Seq<Node>,
    built: Map<nat, nat>,
    later: Map<nat, nat>,
    slots: Seq<(nat, nat)>,
    pairs: Seq<(JsTree, JsTree)>,
    from: nat,
    low: nat,
)
    requires
        pair_images(side, before, built, slots, pairs, from),
        low <= from,
        kept(before, after, built, later, low),
    ensures
        pair_images(side, after, later, slots, pairs, from),
    decreases pairs,
{
    if pairs.len() > 0 {
        lemma_pair_images_kept(
            side,
            before,
            after,
            built,
            later,
            slots.drop_last(),
            pairs.drop_last(),
            from,
            low,
        );
        lemma_image_kept(
            side,
            before,
            after,
            built,
            later,
            slots.last().0,
            pairs.last().0,
            from,
            low,
        );
        lemma_image_kept(
            side,
            before,
            after,
            built,
            later,
            slots.last().1,
            pairs.last().1,
            from,
            low,
        );
    }
}

/// The objects with the first `ids` ids, and no others, have been made, each by
/// a later step than the one before.
pub open spec fn plan_wf(plan: Plan, ids: nat) -> bool {
    &&& forall|id: nat| #[trigger] plan.built.contains_key(id) <==> id < ids
    &&& forall|id: nat|
        id < ids ==> #[trigger] plan.built[id] < plan.steps.len() && layout(
            plan.steps,
        )[plan.built[id] as int].is_object()
    &&& forall|i: nat, j: nat| i < j < ids ==> plan.built[i] < plan.built[j]
}

pub proof fn lemma_layout_len(steps: Seq<Step>)
    ensures
        layout(steps).len() == steps.len(),
{
    lemma_layout_push(steps, Step::NewSet);
}

/// What was made after `later` steps was made after `from` steps.
proof fn lemma_image_from(
    side: Side,
    nodes: Seq<Node>,
    built: Map<nat, nat>,
    at: nat,
    t: JsTree,
    from: nat,
    later: nat,
)
    requires
        image(side, nodes, built, at, t, later),
        from <= later,
    ensures
        image(side, nodes, built, at, t, from),
{
}

/// Steps have been added that filled the container made by step `at`, and
/// touched nothing else that was there.
pub open spec fn filled(plan: Plan, p: Plan, at: nat) -> bool {
    &&& plan.steps.len() <= p.steps.len()
    &&& forall|k: int|
        0 <= k < plan.steps.len() && k != at ==> #[trigger] layout(p.steps)[k] == layout(
            plan.steps,
        )[k]
    &&& forall|id: nat| #[trigger]
        plan.built.contains_key(id) ==> p.built.contains_key(id) && p.built[id] == plan.built[id]
}

/// The steps of a build leave behind what looks like the tree, and touch nothing
/// that was there before.
pub proof fn lemma_built(side: Side, t: JsTree, plan: Plan, lo: nat, hi: nat, depth: nat)
    requires
        plan_value(side, t, plan) is Some,
        well_numbered(t, lo, depth) == Some(hi),
        texts_fit(side, t),
        plan_wf(plan, lo),
    ensures
        ({
            let (p, at) = plan_value(side, t, plan).unwrap();
            &&& plan_wf(p, hi)
            &&& kept(layout(plan.steps), layout(p.steps), plan.built, p.built, 0)
            &&& plan.steps.len() <= p.steps.len()
            &&& image(side, layout(p.steps), p.built, at, t, plan.steps.len())
        }),
    decreases t,
{
    let from = plan.steps.len();
    let (p, at) = plan_value(side, t, plan).unwrap();
    lemma_layout_len(plan.steps);
    lemma_layout_len(p.steps);
    match t {
        JsTree::Ref(j) => {
            assert(plan.built.contains_key(j));
        },
        JsTree::Array { id, items } => {
            let opened = plan.make(Step::NewArray(items.len()), id);
            lemma_layout_push(plan.steps, Step::NewArray(items.len()));
            lemma_opened(plan, Step::NewArray(items.len()), lo);
            assert(opened.built.contains_key(id));
            lemma_built_items(side, items, from, opened, lo + 1, hi, depth + 1);
        },
        JsTree::JsSet { id, items } => {
            let opened = plan.make(Step::NewSet, id);
            lemma_layout_push(plan.steps, Step::NewSet);
            lemma_opened(plan, Step::NewSet, lo);
            assert(opened.built.contains_key(id));
            lemma_built_members(side, items, from, opened, lo + 1, hi, depth + 1);
        },
        JsTree::Obj { id, entries } => {
            let opened = plan.make(Step::NewObject, id);
            lemma_layout_push(plan.steps, Step::NewObject);
            lemma_opened(plan, Step::NewObject, lo);
            assert(opened.built.contains_key(id));
            lemma_built_entries(side, entries, from, opened, lo + 1, hi, depth + 1);
        },
        JsTree::JsMap { id, pairs } => {
            let opened = plan.make(Step::NewMap, id);
            lemma_layout_push(plan.steps, Step::NewMap);
            lemma_opened(plan, Step::NewMap, lo);
            assert(opened.built.contains_key(id));
            lemma_built_pairs(side, pairs, from, opened, lo + 1, hi, depth + 1);
        },
        JsTree::Bytes { .. } => {
            lemma_layout_push(plan.steps, Step::Make(t));
            lemma_opened(plan, Step::Make(t), lo);
        },
        _ => {
            let step = p.steps.last();
            assert(p.steps.drop_last() =~= plan.steps);
            assert(p.steps =~= plan.steps.push(step));
            lemma_layout_push(plan.steps, step);
            assert forall|id: nat| id < lo implies layout(p.steps)[p.built[id] as int].is_object() by {
                assert(layout(plan.steps)[plan.built[id] as int].is_object());
            }
        },
    }
}

/// An object has been made under the next id.
proof fn lemma_opened(plan: Plan, step: Step, ids: nat)
    requires
        plan_wf(plan, ids),
        match step {
            Step::Make(t) => t is Bytes,
            Step::NewArray(_) | Step::NewObject | Step::NewMap | Step::NewSet => true,
            _ => false,
        },
    ensures
        plan_wf(plan.make(step, ids), ids + 1),
        forall|id: nat| #[trigger]
            plan.built.contains_key(id) ==> plan.make(step, ids).built.contains_key(id)
                && plan.make(step, ids).built[id] == plan.built[id],
{
    lemma_layout_push(plan.steps, step);
    let p = plan.make(step, ids);
    lemma_layout_len(plan.steps);
    assert forall|id: nat| id < ids + 1 implies layout(p.steps)[p.built[id] as int].is_object() by {
        if id < ids {
            assert(layout(plan.steps)[plan.built[id] as int].is_object());
        }
    }
}

/// Filling an array touches nothing but the array.
proof fn lemma_built_items(
    side: Side,
    items: Seq<JsTree>,
    at: nat,
    plan: Plan,
    lo: nat,
    hi: nat,
    depth: nat,
)
    requires
        plan_items(side, items, at, plan) is Some,
        items_numbered(items, lo, depth) == Some(hi),
        forall|i: int| 0 <= i < items.len() ==> texts_fit(side, #[trigger] items[i]),
        plan_wf(plan, lo),
        at + 1 == plan.steps.len(),
        layout(plan.steps)[at as int] == Node::Array(seq![]),
    ensures
        ({
            let p = plan_items(side, items, at, plan).unwrap();
            &&& plan_wf(p, hi)
            &&& filled(plan, p, at)
            &&& layout(p.steps)[at as int] matches Node::Array(slots) && images(
                side,
                layout(p.steps),
                p.built,
                slots,
                items,
                at + 1,
            )
        }),
    decreases items,
{
    lemma_layout_len(plan.steps);
    if items.len() > 0 {
        let fewer = items.drop_last();
        let mid = plan_items(side, fewer, at, plan).unwrap();
        let ids = items_numbered(fewer, lo, depth).unwrap();
        lemma_built_items(side, fewer, at, plan, lo, ids, depth);
        let slots = layout(mid.steps)[at as int]->Array_0;
        lemma_layout_len(mid.steps);
        assert forall|i: int| 0 <= i < fewer.len() implies texts_fit(side, #[trigger] fewer[i]) by {
            assert(fewer[i] == items[i]);
        }
        lemma_built(side, items.last(), mid, ids, hi, depth);
        let (q, value) = plan_value(side, items.last(), mid).unwrap();
        let step = Step::SetIndex { array: at, index: fewer.len(), value };
        lemma_layout_len(q.steps);
        let p = q.then_do(step);
        lemma_layout_push(q.steps, step);
        lemma_layout_len(p.steps);
        let nodes = layout(p.steps);
        assert(nodes[at as int] == Node::Array(slots.push(value)));
        assert(kept(layout(q.steps), nodes, q.built, p.built, at + 1));
        lemma_images_kept(side, layout(mid.steps), layout(q.steps), mid.built, q.built, slots, fewer, at + 1, 0);
        lemma_images_kept(side, layout(q.steps), nodes, q.built, p.built, slots, fewer, at + 1, at + 1);
        lemma_image_from(side, layout(q.steps), q.built, value, items.last(), at + 1, mid.steps.len());
        lemma_image_kept(side, layout(q.steps), nodes, q.built, p.built, value, items.last(), at + 1, at + 1);
        assert(slots.push(value).drop_last() =~= slots);
        assert forall|id: nat| id < hi implies nodes[p.built[id] as int].is_object() by {
            assert(layout(q.steps)[q.built[id] as int].is_object());
        }
    }
}

/// Filling a set touches nothing but the set.
proof fn lemma_built_members(
    side: Side,
    members: Seq<JsTree>,
    at: nat,
    plan: Plan,
    lo: nat,
    hi: nat,
    depth: nat,
)
    requires
        plan_members(side, members, at, plan) is Some,
        items_numbered(members, lo, depth) == Some(hi),
        forall|i: int| 0 <= i < members.len() ==> texts_fit(side, #[trigger] members[i]),
        plan_wf(plan, lo),
        at + 1 == plan.steps.len(),
        layout(plan.steps)[at as int] == Node::JsSet(seq![]),
    ensures
        ({
            let p = plan_members(side, members, at, plan).unwrap();
            &&& plan_wf(p, hi)
            &&& filled(plan, p, at)
            &&& layout(p.steps)[at as int] matches Node::JsSet(slots) && images(
                side,
                layout(p.steps),
                p.built,
                slots,
                members,
                at + 1,
            )
        }),
    decreases members,
{
    lemma_layout_len(plan.steps);
    if members.len() > 0 {
        let fewer = members.drop_last();
        let mid = plan_members(side, fewer, at, plan).unwrap();
        let ids = items_numbered(fewer, lo, depth).unwrap();
        lemma_built_members(side, fewer, at, plan, lo, ids, depth);
        let slots = layout(mid.steps)[at as int]->JsSet_0;
        lemma_layout_len(mid.steps);
        assert forall|i: int| 0 <= i < fewer.len() implies texts_fit(side, #[trigger] fewer[i]) by {
            assert(fewer[i] == members[i]);
        }
        lemma_built(side, members.last(), mid, ids, hi, depth);
        let (q, value) = plan_value(side, members.last(), mid).unwrap();
        let step = Step::SetAdd { set: at, value };
        lemma_layout_len(q.steps);
        let p = q.then_do(step);
        lemma_layout_push(q.steps, step);
        lemma_layout_len(p.steps);
        let nodes = layout(p.steps);
        assert(nodes[at as int] == Node::JsSet(slots.push(value)));
        assert(kept(layout(q.steps), nodes, q.built, p.built, at + 1));
        lemma_images_kept(side, layout(mid.steps), layout(q.steps), mid.built, q.built, slots, fewer, at + 1, 0);
        lemma_images_kept(side, layout(q.steps), nodes, q.built, p.built, slots, fewer, at + 1, at + 1);
        lemma_image_from(side, layout(q.steps), q.built, value, members.last(), at + 1, mid.steps.len());
        lemma_image_kept(side, layout(q.steps), nodes, q.built, p.built, value, members.last(), at + 1, at + 1);
        assert(slots.push(value).drop_last() =~= slots);
        assert forall|id: nat| id < hi implies nodes[p.built[id] as int].is_object() by {
            assert(layout(q.steps)[q.built[id] as int].is_object());
        }
    }
}

/// Filling an object touches nothing but the object.
proof fn lemma_built_entries(
    side: Side,
    entries: Seq<(Seq<char>, JsTree)>,
    at: nat,
    plan: Plan,
    lo: nat,
    hi: nat,
    depth: nat,
)
    requires
        plan_entries(side, entries, at, plan) is Some,
        entries_well_numbered(entries, lo, depth) == Some(hi),
        forall|i: int|
            0 <= i < entries.len() ==> !too_long(side, (#[trigger] entries[i]).0) && texts_fit(
                side,
                entries[i].1,
            ),
        plan_wf(plan, lo),
        at + 1 == plan.steps.len(),
        layout(plan.steps)[at as int] == Node::Obj(seq![]),
    ensures
        ({
            let p = plan_entries(side, entries, at, plan).unwrap();
            &&& plan_wf(p, hi)
            &&& filled(plan, p, at)
            &&& layout(p.steps)[at as int] matches Node::Obj(slots) && entry_images(
                side,
                layout(p.steps),
                p.built,
                slots,
                entries,
                at + 1,
            )
        }),
    decreases entries,
{
    lemma_layout_len(plan.steps);
    if entries.len() > 0 {
        let fewer = entries.drop_last();
        let mid = plan_entries(side, fewer, at, plan).unwrap();
        let ids = entries_well_numbered(fewer, lo, depth).unwrap();
        lemma_built_entries(side, fewer, at, plan, lo, ids, depth);
        let slots = layout(mid.steps)[at as int]->Obj_0;
        lemma_layout_len(mid.steps);
        lemma_built(side, entries.last().1, mid, ids, hi, depth);
        let (q, value) = plan_value(side, entries.last().1, mid).unwrap();
        let key = entries.last().0;
        let step = Step::SetKey { object: at, key, value };
        lemma_layout_len(q.steps);
        let p = q.then_do(step);
        lemma_layout_push(q.steps, step);
        lemma_layout_len(p.steps);
        let nodes = layout(p.steps);
        assert(nodes[at as int] == Node::Obj(slots.push((key, value))));
        assert(kept(layout(q.steps), nodes, q.built, p.built, at + 1));
        lemma_entry_images_kept(side, layout(mid.steps), layout(q.steps), mid.built, q.built, slots, fewer, at + 1, 0);
        lemma_entry_images_kept(side, layout(q.steps), nodes, q.built, p.built, slots, fewer, at + 1, at + 1);
        lemma_image_from(side, layout(q.steps), q.built, value, entries.last().1, at + 1, mid.steps.len());
        lemma_image_kept(side, layout(q.steps), nodes, q.built, p.built, value, entries.last().1, at + 1, at + 1);
        assert(slots.push((key, value)).drop_last() =~= slots);
        assert forall|id: nat| id < hi implies nodes[p.built[id] as int].is_object() by {
            assert(layout(q.steps)[q.built[id] as int].is_object());
        }
    }
}

/// Filling a map touches nothing but the map.
proof fn lemma_built_pairs(
    side: Side,
    pairs: Seq<(JsTree, JsTree)>,
    at: nat,
    plan: Plan,
    lo: nat,
    hi: nat,
    depth: nat,
)
    requires
        plan_pairs(side, pairs, at, plan) is Some,
        pairs_well_numbered(pairs, lo, depth) == Some(hi),
        forall|i: int|
            0 <= i < pairs.len() ==> texts_fit(side, (#[trigger] pairs[i]).0) && texts_fit(
                side,
                pairs[i].1,
            ),
        plan_wf(plan, lo),
        at + 1 == plan.steps.len(),
        layout(plan.steps)[at as int] == Node::JsMap(seq![]),
    ensures
        ({
            let p = plan_pairs(side, pairs, at, plan).unwrap();
            &&& plan_wf(p, hi)
            &&& filled(plan, p, at)
            &&& layout(p.steps)[at as int] matches Node::JsMap(slots) && pair_images(
                side,
                layout(p.steps),
                p.built,
                slots,
                pairs,
                at + 1,
            )
        }),
    decreases pairs,
{
    lemma_layout_len(plan.steps);
    if pairs.len() > 0 {
        let fewer = pairs.drop_last();
        let mid = plan_pairs(side, fewer, at, plan).unwrap();
        let ids = pairs_well_numbered(fewer, lo, depth).unwrap();
        lemma_built_pairs(side, fewer, at, plan, lo, ids, depth);
        let slots = layout(mid.steps)[at as int]->JsMap_0;
        lemma_layout_len(mid.steps);
        let end = well_numbered(pairs.last().0, ids, depth).unwrap();
        lemma_built(side, pairs.last().0, mid, ids, end, depth);
        let (r, key) = plan_value(side, pairs.last().0, mid).unwrap();
        lemma_built(side, pairs.last().1, r, end, hi, depth);
        let (q, value) = plan_value(side, pairs.last().1, r).unwrap();
        let step = Step::MapSet { map: at, key, value };
        lemma_layout_len(r.steps);
        lemma_layout_len(q.steps);
        let p = q.then_do(step);
        lemma_layout_push(q.steps, step);
        lemma_layout_len(p.steps);
        let nodes = layout(p.steps);
        assert(nodes[at as int] == Node::JsMap(slots.push((key, value))));
        assert(kept(layout(q.steps), nodes, q.built, p.built, at + 1));
        lemma_pair_images_kept(side, layout(mid.steps), layout(r.steps), mid.built, r.built, slots, fewer, at + 1, 0);
        lemma_pair_images_kept(side, layout(r.steps), layout(q.steps), r.built, q.built, slots, fewer, at + 1, 0);
        lemma_pair_images_kept(side, layout(q.steps), nodes, q.built, p.built, slots, fewer, at + 1, at + 1);
        lemma_image_from(side, layout(r.steps), r.built, key, pairs.last().0, at + 1, mid.steps.len());
        lemma_image_kept(side, layout(r.steps), layout(q.steps), r.built, q.built, key, pairs.last().0, at + 1, 0);
        lemma_image_kept(side, layout(q.steps), nodes, q.built, p.built, key, pairs.last().0, at + 1, at + 1);
        lemma_image_from(side, layout(q.steps), q.built, value, pairs.last().1, at + 1, r.steps.len());
        lemma_image_kept(side, layout(q.steps), nodes, q.built, p.built, value, pairs.last().1, at + 1, at + 1);
        assert(slots.push((key, value)).drop_last() =~= slots);
        assert forall|id: nat| id < hi implies nodes[p.built[id] as int].is_object() by {
            assert(layout(q.steps)[q.built[id] as int].is_object());
        }
    }
}

} // verus!
