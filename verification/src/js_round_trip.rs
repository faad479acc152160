//! What is built in JavaScript reads back as what it was built from.

use vstd::prelude::*;

use crate::js_read::class_of;
use crate::js_read::js_child;
use crate::js_read::js_contents;
use crate::js_read::js_entries;
use crate::js_read::js_find;
use crate::js_read::js_is_at;
use crate::js_read::js_items;
use crate::js_read::js_pairs;
use crate::js_read::js_sighting;
use crate::js_read::js_tree;
use crate::js_read::js_value;
use crate::js_read::lemma_js_first_bound;
use crate::js_read::lemma_js_first_skips;
use crate::js_read::JsClass;
use crate::js_read::JsTests;
use crate::js_read::JsWorld;
use crate::js_read::Sighting;
use crate::layout::entries_well_numbered;
use crate::layout::entry_images;
use crate::layout::image;
use crate::layout::images;
use crate::layout::items_numbered;
use crate::layout::layout;
use crate::layout::lemma_built;
use crate::layout::lemma_entry_numbers_grow;
use crate::layout::lemma_item_numbers_grow;
use crate::layout::lemma_layout_len;
use crate::layout::lemma_numbers_grow;
use crate::layout::lemma_pair_numbers_grow;
use crate::layout::pair_images;
use crate::layout::pairs_well_numbered;
use crate::layout::plan_wf;
use crate::layout::texts_fit;
use crate::layout::well_numbered;
use crate::layout::Node;
use crate::number::exponent_of;
use crate::number::integer_of;
use crate::number::MANTISSA_SPAN;
use crate::number::MAX_EXPONENT;
use crate::number::SIGN_SPAN;
use crate::plan::build_plan;
use crate::plan::no_plan;
use crate::plan::plan_value;
use crate::plan::Plan;
use crate::plan::Side;
use crate::value::JsTree;
use crate::value::MAX_MARSHAL_DEPTH;

verus! {

/// The bits of the one value that is no number.
pub const CANONICAL_NAN: u64 = 0x7ff8_0000_0000_0000;

/// The last millisecond that a date can be at, on either side of the epoch.
pub const MAX_DATE_MILLIS: u64 = 8640000000000000;

/// The integer is one of 32 bits.
pub open spec fn is_int32(i: int) -> bool {
    -0x8000_0000 <= i < 0x8000_0000
}

/// A number that JavaScript keeps as a double and not as a 32-bit integer.
pub open spec fn stays_double(bits: u64) -> bool {
    &&& integer_of(bits) matches Some(n) ==> !is_int32(n) || bits == SIGN_SPAN
    &&& exponent_of(bits) == MAX_EXPONENT && bits % MANTISSA_SPAN != 0 ==> bits == CANONICAL_NAN
}

/// A time that a date can be at, or none.
pub open spec fn is_date_time(bits: u64) -> bool {
    bits == CANONICAL_NAN || bits != SIGN_SPAN && (integer_of(bits) matches Some(n)
        && -MAX_DATE_MILLIS <= n <= MAX_DATE_MILLIS)
}

/// A big integer in the form that JavaScript gives it: no zero limbs on top, and
/// no negative zero.
pub open spec fn is_trimmed(negative: bool, words: Seq<u64>) -> bool {
    if words.len() == 0 {
        !negative
    } else {
        words.last() != 0
    }
}

/// A value without parts that JavaScript has in exactly this form. A number that
/// is a 32-bit integer is one kind, any other number is another.
pub open spec fn js_plain_leaf(t: JsTree) -> bool {
    match t {
        JsTree::Int(i) => is_int32(i as int),
        JsTree::Num(n) => stays_double(n),
        JsTree::BigInt { negative, words } => is_trimmed(negative, words),
        JsTree::Date(ms) => is_date_time(ms),
        _ => true,
    }
}

/// JavaScript has every value of the tree in exactly this form, and in no larger
/// number than it can list.
pub open spec fn js_plain(t: JsTree) -> bool
    decreases t,
{
    match t {
        JsTree::Array { items, .. } => items.len() <= u32::MAX && forall|i: int|
            0 <= i < items.len() ==> js_plain(#[trigger] items[i]),
        JsTree::JsSet { items, .. } => items.len() <= u32::MAX && forall|i: int|
            0 <= i < items.len() ==> js_plain(#[trigger] items[i]),
        JsTree::Obj { entries, .. } => entries.len() <= u32::MAX && forall|i: int|
            0 <= i < entries.len() ==> js_plain((#[trigger] entries[i]).1),
        JsTree::JsMap { pairs, .. } => 2 * pairs.len() <= u32::MAX && forall|i: int|
            0 <= i < pairs.len() ==> js_plain((#[trigger] pairs[i]).0) && js_plain(pairs[i].1),
        _ => js_plain_leaf(t),
    }
}

/// The engine says of a value that it is none of the primitive kinds that it has
/// predicates for.
pub open spec fn js_no_primitive(t: JsTests) -> bool {
    !t.undefined && !t.null && !t.boolean && !t.int32 && !t.number && !t.big_int
}

/// The engine says of a value that it is no object of a kind of its own.
pub open spec fn js_no_kind(t: JsTests) -> bool {
    !t.date && !t.array_buffer_view && !t.array_buffer && !t.shared_array_buffer && !t.map && !t.set
        && !t.array
}

/// The engine shows a value without parts as what it was made from.
pub open spec fn js_shows_leaf<V>(w: JsWorld<V>, v: V, t: JsTree) -> bool {
    let tests = (w.tests)(v);
    match t {
        JsTree::Undefined => tests.undefined,
        JsTree::Null => !tests.undefined && tests.null,
        JsTree::Bool(b) => !tests.undefined && !tests.null && tests.boolean && (w.boolean)(v) == b,
        JsTree::Int(i) => !tests.undefined && !tests.null && !tests.boolean && tests.int32
            && (w.integer)(v) == i,
        JsTree::Num(n) => !tests.undefined && !tests.null && !tests.boolean && !tests.int32
            && tests.number && (w.number)(v) == n,
        JsTree::BigInt { negative, words } => !tests.undefined && !tests.null && !tests.boolean
            && !tests.int32 && !tests.number && tests.big_int && (w.big_int)(v) == (
            negative,
            words,
        ),
        JsTree::Date(ms) => js_no_primitive(tests) && tests.date && (w.date)(v) == ms,
        JsTree::Str(text) => js_no_primitive(tests) && js_no_kind(tests) && (!tests.object
            || tests.function) && (w.text)(v) == text,
        JsTree::Bytes { bytes, .. } => js_no_primitive(tests) && !tests.date
            && tests.array_buffer_view && (w.bytes)(v, JsClass::View) == bytes,
        _ => true,
    }
}

/// The engine shows what stands behind a step of a build: a container with
/// everything that was put into it, in order. `made` gives the value that a step
/// made.
pub open spec fn js_shows_node<V>(w: JsWorld<V>, made: spec_fn(nat) -> V, v: V, node: Node) -> bool {
    let tests = (w.tests)(v);
    match node {
        Node::Leaf(t) => js_plain_leaf(t) ==> js_shows_leaf(w, v, t),
        Node::Array(slots) => js_no_primitive(tests) && js_no_kind(
            JsTests { array: false, ..tests },
        ) && tests.array && js_lists(w, made, (w.elements)(v, JsClass::Array), slots),
        Node::JsSet(slots) => js_no_primitive(tests) && js_no_kind(
            JsTests { array: false, set: false, ..tests },
        ) && tests.set && js_lists(w, made, (w.elements)(v, JsClass::SetObject), slots),
        Node::JsMap(slots) => js_no_primitive(tests) && js_no_kind(
            JsTests { array: false, set: false, map: false, ..tests },
        ) && tests.map && js_lists_pairs(w, made, (w.elements)(v, JsClass::MapObject), slots),
        Node::Obj(slots) => js_no_primitive(tests) && js_no_kind(tests) && tests.object
            && !tests.function && ((w.names)(v) matches Some(list) && js_lists_entries(
            w,
            made,
            v,
            list,
            slots,
        )),
        _ => true,
    }
}

pub open spec fn js_lists<V>(
    w: JsWorld<V>,
    made: spec_fn(nat) -> V,
    list: (V, u32),
    slots: Seq<nat>,
) -> bool {
    &&& slots.len() <= u32::MAX ==> list.1 == slots.len()
    &&& forall|i: u32|
        i < slots.len() ==> #[trigger] (w.item)(list.0, i) == Some(made(slots[i as int]))
}

pub open spec fn js_lists_pairs<V>(
    w: JsWorld<V>,
    made: spec_fn(nat) -> V,
    list: (V, u32),
    slots: Seq<(nat, nat)>,
) -> bool {
    &&& 2 * slots.len() <= u32::MAX ==> list.1 == 2 * slots.len()
    &&& forall|i: u32|
        i < 2 * slots.len() ==> #[trigger] (w.item)(list.0, i) == Some(
            made(
                if i % 2 == 0 {
                    slots[i as int / 2].0
                } else {
                    slots[i as int / 2].1
                },
            ),
        )
}

pub open spec fn js_lists_entries<V>(
    w: JsWorld<V>,
    made: spec_fn(nat) -> V,
    v: V,
    list: (V, u32),
    slots: Seq<(Seq<char>, nat)>,
) -> bool {
    &&& slots.len() <= u32::MAX ==> list.1 == slots.len()
    &&& forall|i: u32|
        i < slots.len() ==> (#[trigger] (w.item)(list.0, i) matches Some(key) && (w.text)(key)
            == slots[i as int].0 && (w.get)(v, key) == Some(made(slots[i as int].1)))
}

/// The engine shows everything that a build left behind, and tells two objects
/// apart exactly if two steps made them.
pub open spec fn js_shows<V>(w: JsWorld<V>, made: spec_fn(nat) -> V, nodes: Seq<Node>) -> bool {
    &&& forall|k: nat| k < nodes.len() ==> js_shows_node(w, made, #[trigger] made(k), nodes[k as int])
    &&& forall|j: nat, k: nat|
        j < nodes.len() && k < nodes.len() && nodes[j as int].is_object()
            && nodes[k as int].is_object() ==> (#[trigger] (w.same)(made(j), made(k)) <==> j == k)
}

/// The objects met so far are those with the first `n` ids.
spec fn met<V>(seen: Seq<V>, made: spec_fn(nat) -> V, built: Map<nat, nat>, n: nat) -> bool {
    seen.len() == n && forall|id: nat| id < n ==> #[trigger] seen[id as int] == made(built[id])
}

/// An object made under a later id has not been met.
proof fn lemma_js_not_met<V>(
    w: JsWorld<V>,
    made: spec_fn(nat) -> V,
    p: Plan,
    ids: nat,
    seen: Seq<V>,
    n: nat,
)
    requires
        js_shows(w, made, layout(p.steps)),
        plan_wf(p, ids),
        n < ids,
        met(seen, made, p.built, n),
        layout(p.steps).len() == p.steps.len(),
    ensures
        js_find(w, seen, made(p.built[n])) is None,
{
    let v = made(p.built[n]);
    assert forall|j: int| 0 <= j < n implies !js_is_at(w, seen, v, j) by {
        assert(seen[j as nat as int] == made(p.built[j as nat]));
        assert(p.built[j as nat] < p.built[n]);
    }
    lemma_js_first_skips(w, seen, v, 0, n as int);
}

/// An object that has been met is found under its id.
proof fn lemma_js_met<V>(
    w: JsWorld<V>,
    made: spec_fn(nat) -> V,
    p: Plan,
    ids: nat,
    seen: Seq<V>,
    n: nat,
    id: nat,
)
    requires
        js_shows(w, made, layout(p.steps)),
        plan_wf(p, ids),
        id < n <= ids,
        met(seen, made, p.built, n),
        layout(p.steps).len() == p.steps.len(),
    ensures
        js_find(w, seen, made(p.built[id])) == Some(id),
{
    let v = made(p.built[id]);
    assert forall|j: int| 0 <= j < id implies !js_is_at(w, seen, v, j) by {
        assert(seen[j as nat as int] == made(p.built[j as nat]));
        assert(p.built[j as nat] < p.built[id]);
    }
    lemma_js_first_skips(w, seen, v, 0, id as int);
    assert(seen[id as int] == v);
    assert((w.same)(made(p.built[id]), made(p.built[id])));
    assert(js_is_at(w, seen, v, id as int));
}

/// A value that a build left behind reads back as the tree that it looks like.
proof fn lemma_js_reads<V>(
    side: Side,
    w: JsWorld<V>,
    made: spec_fn(nat) -> V,
    p: Plan,
    ids: nat,
    t: JsTree,
    at: nat,
    from: nat,
    lo: nat,
    hi: nat,
    depth: nat,
    seen: Seq<V>,
)
    requires
        side is JavaScript,
        js_shows(w, made, layout(p.steps)),
        layout(p.steps).len() == p.steps.len(),
        plan_wf(p, ids),
        image(side, layout(p.steps), p.built, at, t, from),
        well_numbered(t, lo, depth) == Some(hi),
        hi <= ids,
        js_plain(t),
        met(seen, made, p.built, lo),
    ensures
        js_value(w, made(at), seen, depth).0 == t,
        met(js_value(w, made(at), seen, depth).1, made, p.built, hi),
    decreases t,
{
    let nodes = layout(p.steps);
    let v = made(at);
    match t {
        JsTree::Ref(j) => {
            lemma_js_met(w, made, p, ids, seen, lo, j);
            lemma_js_ref_class(w, made, p, ids, j);
        },
        JsTree::Bytes { id, bytes } => {
            assert(js_shows_node(w, made, made(at), nodes[at as int]));
            lemma_js_not_met(w, made, p, ids, seen, lo);
            assert(p.built[lo] == at);
        },
        JsTree::Array { id, items } => {
            assert(js_shows_node(w, made, made(at), nodes[at as int]));
            lemma_item_numbers_grow(items, lo + 1, depth + 1);
            lemma_js_not_met(w, made, p, ids, seen, lo);
            let slots = nodes[at as int]->Array_0;
            lemma_images_len(side, nodes, p.built, slots, items, at + 1);
            lemma_js_reads_items(
                side,
                w,
                made,
                p,
                ids,
                items,
                slots,
                at + 1,
                lo + 1,
                hi,
                depth,
                (w.elements)(v, JsClass::Array).0,
                seen.push(v),
            );
        },
        JsTree::JsSet { id, items } => {
            assert(js_shows_node(w, made, made(at), nodes[at as int]));
            lemma_item_numbers_grow(items, lo + 1, depth + 1);
            lemma_js_not_met(w, made, p, ids, seen, lo);
            let slots = nodes[at as int]->JsSet_0;
            lemma_images_len(side, nodes, p.built, slots, items, at + 1);
            lemma_js_reads_items(
                side,
                w,
                made,
                p,
                ids,
                items,
                slots,
                at + 1,
                lo + 1,
                hi,
                depth,
                (w.elements)(v, JsClass::SetObject).0,
                seen.push(v),
            );
        },
        JsTree::Obj { id, entries } => {
            assert(js_shows_node(w, made, made(at), nodes[at as int]));
            lemma_entry_numbers_grow(entries, lo + 1, depth + 1);
            lemma_js_not_met(w, made, p, ids, seen, lo);
            let slots = nodes[at as int]->Obj_0;
            lemma_js_reads_entries(
                side,
                w,
                made,
                p,
                ids,
                entries,
                slots,
                at + 1,
                lo + 1,
                hi,
                depth,
                v,
                (w.names)(v).unwrap().0,
                seen.push(v),
            );
        },
        JsTree::JsMap { id, pairs } => {
            assert(js_shows_node(w, made, made(at), nodes[at as int]));
            lemma_pair_numbers_grow(pairs, lo + 1, depth + 1);
            lemma_js_not_met(w, made, p, ids, seen, lo);
            let slots = nodes[at as int]->JsMap_0;
            lemma_js_reads_pairs(
                side,
                w,
                made,
                p,
                ids,
                pairs,
                slots,
                at + 1,
                lo + 1,
                hi,
                depth,
                (w.elements)(v, JsClass::MapObject).0,
                seen.push(v),
            );
        },
        _ => {
            assert(js_shows_node(w, made, made(at), nodes[at as int]));
        },
    }
}

/// There is a slot for each item.
proof fn lemma_images_len(
    side: Side,
    nodes: Seq<Node>,
    built: Map<nat, nat>,
    slots: Seq<nat>,
    items: Seq<JsTree>,
    from: nat,
)
    requires
        images(side, nodes, built, slots, items, from),
    ensures
        slots.len() == items.len(),
{
}

/// An object that a reference leads to is read as an object.
proof fn lemma_js_ref_class<V>(w: JsWorld<V>, made: spec_fn(nat) -> V, p: Plan, ids: nat, id: nat)
    requires
        js_shows(w, made, layout(p.steps)),
        layout(p.steps).len() == p.steps.len(),
        plan_wf(p, ids),
        id < ids,
    ensures
        match class_of((w.tests)(made(p.built[id]))) {
            JsClass::View | JsClass::MapObject | JsClass::SetObject | JsClass::Array
            | JsClass::Object => true,
            _ => false,
        },
{
    let at = p.built[id];
    assert(layout(p.steps)[at as int].is_object());
    assert(js_shows_node(w, made, made(at), layout(p.steps)[at as int]));
}

proof fn lemma_js_reads_items<V>(
    side: Side,
    w: JsWorld<V>,
    made: spec_fn(nat) -> V,
    p: Plan,
    ids: nat,
    items: Seq<JsTree>,
    slots: Seq<nat>,
    from: nat,
    lo: nat,
    hi: nat,
    depth: nat,
    list: V,
    seen: Seq<V>,
)
    requires
        side is JavaScript,
        js_shows(w, made, layout(p.steps)),
        layout(p.steps).len() == p.steps.len(),
        plan_wf(p, ids),
        images(side, layout(p.steps), p.built, slots, items, from),
        items_numbered(items, lo, depth + 1) == Some(hi),
        hi <= ids,
        depth < MAX_MARSHAL_DEPTH,
        items.len() <= u32::MAX,
        forall|i: int| 0 <= i < items.len() ==> js_plain(#[trigger] items[i]),
        forall|i: u32|
            i < slots.len() ==> #[trigger] (w.item)(list, i) == Some(made(slots[i as int])),
        met(seen, made, p.built, lo),
    ensures
        js_items(w, list, items.len(), seen, depth).0 == items,
        met(js_items(w, list, items.len(), seen, depth).1, made, p.built, hi),
        slots.len() == items.len(),
    decreases items,
{
    if items.len() > 0 {
        let fewer = items.drop_last();
        let mid = items_numbered(fewer, lo, depth + 1).unwrap();
        lemma_numbers_grow(items.last(), mid, depth + 1);
        lemma_js_reads_items(
            side,
            w,
            made,
            p,
            ids,
            fewer,
            slots.drop_last(),
            from,
            lo,
            mid,
            depth,
            list,
            seen,
        );
        let (before, s0) = js_items(w, list, fewer.len(), seen, depth);
        let n = (items.len() - 1) as u32;
        assert((w.item)(list, n) == Some(made(slots.last())));
        assert(js_child(w, (w.item)(list, n), s0, depth) == js_value(
            w,
            made(slots.last()),
            s0,
            depth + 1,
        ));
        lemma_js_reads(
            side,
            w,
            made,
            p,
            ids,
            items.last(),
            slots.last(),
            from,
            mid,
            hi,
            depth + 1,
            s0,
        );
        assert(fewer.push(items.last()) =~= items);
    }
}

proof fn lemma_js_reads_entries<V>(
    side: Side,
    w: JsWorld<V>,
    made: spec_fn(nat) -> V,
    p: Plan,
    ids: nat,
    entries: Seq<(Seq<char>, JsTree)>,
    slots: Seq<(Seq<char>, nat)>,
    from: nat,
    lo: nat,
    hi: nat,
    depth: nat,
    obj: V,
    list: V,
    seen: Seq<V>,
)
    requires
        side is JavaScript,
        js_shows(w, made, layout(p.steps)),
        layout(p.steps).len() == p.steps.len(),
        plan_wf(p, ids),
        entry_images(side, layout(p.steps), p.built, slots, entries, from),
        entries_well_numbered(entries, lo, depth + 1) == Some(hi),
        hi <= ids,
        depth < MAX_MARSHAL_DEPTH,
        entries.len() <= u32::MAX,
        forall|i: int| 0 <= i < entries.len() ==> js_plain((#[trigger] entries[i]).1),
        forall|i: u32|
            i < slots.len() ==> (#[trigger] (w.item)(list, i) matches Some(key) && (w.text)(key)
                == slots[i as int].0 && (w.get)(obj, key) == Some(made(slots[i as int].1))),
        met(seen, made, p.built, lo),
    ensures
        js_entries(w, obj, list, entries.len(), seen, depth).0 == entries,
        met(js_entries(w, obj, list, entries.len(), seen, depth).1, made, p.built, hi),
        slots.len() == entries.len(),
    decreases entries,
{
    if entries.len() > 0 {
        let fewer = entries.drop_last();
        let mid = entries_well_numbered(fewer, lo, depth + 1).unwrap();
        lemma_numbers_grow(entries.last().1, mid, depth + 1);
        lemma_js_reads_entries(
            side,
            w,
            made,
            p,
            ids,
            fewer,
            slots.drop_last(),
            from,
            lo,
            mid,
            depth,
            obj,
            list,
            seen,
        );
        let (before, s0) = js_entries(w, obj, list, fewer.len(), seen, depth);
        let n = (entries.len() - 1) as u32;
        assert((w.item)(list, n) is Some);
        assert(js_child(w, (w.get)(obj, (w.item)(list, n).unwrap()), s0, depth) == js_value(
            w,
            made(slots.last().1),
            s0,
            depth + 1,
        ));
        lemma_js_reads(
            side,
            w,
            made,
            p,
            ids,
            entries.last().1,
            slots.last().1,
            from,
            mid,
            hi,
            depth + 1,
            s0,
        );
        assert(fewer.push(entries.last()) =~= entries);
    }
}

proof fn lemma_js_reads_pairs<V>(
    side: Side,
    w: JsWorld<V>,
    made: spec_fn(nat) -> V,
    p: Plan,
    ids: nat,
    pairs: Seq<(JsTree, JsTree)>,
    slots: Seq<(nat, nat)>,
    from: nat,
    lo: nat,
    hi: nat,
    depth: nat,
    list: V,
    seen: Seq<V>,
)
    requires
        side is JavaScript,
        js_shows(w, made, layout(p.steps)),
        layout(p.steps).len() == p.steps.len(),
        plan_wf(p, ids),
        pair_images(side, layout(p.steps), p.built, slots, pairs, from),
        pairs_well_numbered(pairs, lo, depth + 1) == Some(hi),
        hi <= ids,
        depth < MAX_MARSHAL_DEPTH,
        2 * pairs.len() <= u32::MAX,
        forall|i: int|
            0 <= i < pairs.len() ==> js_plain((#[trigger] pairs[i]).0) && js_plain(pairs[i].1),
        forall|i: u32|
            i < 2 * slots.len() ==> #[trigger] (w.item)(list, i) == Some(
                made(
                    if i % 2 == 0 {
                        slots[i as int / 2].0
                    } else {
                        slots[i as int / 2].1
                    },
                ),
            ),
        met(seen, made, p.built, lo),
    ensures
        js_pairs(w, list, pairs.len(), seen, depth).0 == pairs,
        met(js_pairs(w, list, pairs.len(), seen, depth).1, made, p.built, hi),
        slots.len() == pairs.len(),
    decreases pairs,
{
    if pairs.len() > 0 {
        let fewer = pairs.drop_last();
        let mid = pairs_well_numbered(fewer, lo, depth + 1).unwrap();
        let end = well_numbered(pairs.last().0, mid, depth + 1).unwrap();
        lemma_numbers_grow(pairs.last().0, mid, depth + 1);
        lemma_numbers_grow(pairs.last().1, end, depth + 1);
        lemma_js_reads_pairs(
            side,
            w,
            made,
            p,
            ids,
            fewer,
            slots.drop_last(),
            from,
            lo,
            mid,
            depth,
            list,
            seen,
        );
        let (before, s0) = js_pairs(w, list, fewer.len(), seen, depth);
        let n = (2 * (pairs.len() - 1)) as u32;
        let m = (2 * (pairs.len() - 1) + 1) as u32;
        assert((w.item)(list, n) == Some(made(slots.last().0)));
        assert((w.item)(list, m) == Some(made(slots.last().1)));
        lemma_js_reads(
            side,
            w,
            made,
            p,
            ids,
            pairs.last().0,
            slots.last().0,
            from,
            mid,
            end,
            depth + 1,
            s0,
        );
        let (key, s1) = js_child(w, (w.item)(list, n), s0, depth);
        assert((key, s1) == js_value(w, made(slots.last().0), s0, depth + 1));
        assert(js_child(w, (w.item)(list, m), s1, depth) == js_value(
            w,
            made(slots.last().1),
            s1,
            depth + 1,
        ));
        lemma_js_reads(
            side,
            w,
            made,
            p,
            ids,
            pairs.last().1,
            slots.last().1,
            from,
            end,
            hi,
            depth + 1,
            s1,
        );
        assert(fewer.push(pairs.last()) =~= pairs);
    }
}

/// What is built in JavaScript reads back as what it was built from: containers
/// of every kind and what stands in them, objects that are shared, and objects
/// that lead back to themselves.
///
/// `w` is any engine that shows what the steps left behind, with everything that
/// was put into a container still in it and in that order. (JavaScript itself
/// lists keys that look like array indices before all others, and holds no two
/// map keys that are the same value.)
pub proof fn law_js_round_trip<V>(
    max_string: usize,
    t: JsTree,
    w: JsWorld<V>,
    made: spec_fn(nat) -> V,
)
    requires
        well_numbered(t, 0, 0) is Some,
        js_plain(t),
        texts_fit(Side::JavaScript { max_string }, t),
        build_plan(Side::JavaScript { max_string }, t) matches Some((steps, _)) && js_shows(
            w,
            made,
            layout(steps),
        ),
    ensures
        build_plan(Side::JavaScript { max_string }, t) matches Some((_, root)) && js_tree(
            w,
            made(root),
        ) == t,
{
    let side = Side::JavaScript { max_string };
    let ids = well_numbered(t, 0, 0).unwrap();
    let (p, at) = plan_value(side, t, no_plan()).unwrap();
    lemma_built(side, t, no_plan(), 0, ids, 0);
    lemma_layout_len(p.steps);
    lemma_js_reads(side, w, made, p, ids, t, at, 0, 0, ids, 0, seq![]);
}

/// Whatever is read from JavaScript is well numbered: so it can be built again, and
/// reads back as itself.
pub proof fn law_js_trees_are_well_numbered<V>(w: JsWorld<V>, v: V)
    ensures
        well_numbered(js_tree(w, v), 0, 0) is Some,
{
    lemma_js_value_numbered(w, v, seq![], 0);
}

proof fn lemma_js_value_numbered<V>(w: JsWorld<V>, v: V, seen: Seq<V>, depth: nat)
    requires
        depth <= MAX_MARSHAL_DEPTH,
    ensures
        well_numbered(js_value(w, v, seen, depth).0, seen.len(), depth) == Some(
            js_value(w, v, seen, depth).1.len(),
        ),
    decreases MAX_MARSHAL_DEPTH - depth, 2nat, 0nat,
{
    let class = class_of((w.tests)(v));
    lemma_js_first_bound(w, seen, v, 0);
    match class {
        JsClass::MapObject | JsClass::SetObject | JsClass::Array | JsClass::Object => {
            if let Sighting::First(id) = js_sighting(w, v, seen, depth) {
                let opened = seen.push(v);
                assert(js_value(w, v, seen, depth) == js_contents(w, v, class, id, opened, depth));
                if class == JsClass::Object {
                    match (w.names)(v) {
                        Some((names, n)) => {
                            lemma_js_entries_numbered(w, v, names, n as nat, opened, depth);
                        },
                        None => {
                            assert(opened.drop_last() =~= seen);
                        },
                    }
                } else if class == JsClass::MapObject {
                    let (list, n) = (w.elements)(v, class);
                    lemma_js_pairs_numbered(w, list, (n / 2) as nat, opened, depth);
                } else {
                    let (list, n) = (w.elements)(v, class);
                    lemma_js_items_numbered(w, list, n as nat, opened, depth);
                }
            }
        },
        _ => {},
    }
}

proof fn lemma_js_child_numbered<V>(w: JsWorld<V>, v: Option<V>, seen: Seq<V>, depth: nat)
    requires
        depth < MAX_MARSHAL_DEPTH,
    ensures
        well_numbered(js_child(w, v, seen, depth).0, seen.len(), depth + 1) == Some(
            js_child(w, v, seen, depth).1.len(),
        ),
    decreases MAX_MARSHAL_DEPTH - depth, 0nat, 0nat,
{
    if let Some(x) = v {
        lemma_js_value_numbered(w, x, seen, depth + 1);
    }
}

proof fn lemma_js_items_numbered<V>(w: JsWorld<V>, list: V, n: nat, seen: Seq<V>, depth: nat)
    requires
        depth < MAX_MARSHAL_DEPTH,
    ensures
        items_numbered(js_items(w, list, n, seen, depth).0, seen.len(), depth + 1) == Some(
            js_items(w, list, n, seen, depth).1.len(),
        ),
    decreases MAX_MARSHAL_DEPTH - depth, 1nat, n,
{
    if n > 0 {
        let m = (n - 1) as nat;
        lemma_js_items_numbered(w, list, m, seen, depth);
        let (before, s0) = js_items(w, list, m, seen, depth);
        lemma_js_child_numbered(w, (w.item)(list, m as u32), s0, depth);
        let (item, s1) = js_child(w, (w.item)(list, m as u32), s0, depth);
        assert(before.push(item).drop_last() =~= before);
    }
}

proof fn lemma_js_pairs_numbered<V>(w: JsWorld<V>, list: V, n: nat, seen: Seq<V>, depth: nat)
    requires
        depth < MAX_MARSHAL_DEPTH,
    ensures
        pairs_well_numbered(js_pairs(w, list, n, seen, depth).0, seen.len(), depth + 1) == Some(
            js_pairs(w, list, n, seen, depth).1.len(),
        ),
    decreases MAX_MARSHAL_DEPTH - depth, 1nat, n,
{
    if n > 0 {
        let m = (n - 1) as nat;
        lemma_js_pairs_numbered(w, list, m, seen, depth);
        let (before, s0) = js_pairs(w, list, m, seen, depth);
        let k = (w.item)(list, (2 * m) as u32);
        let v = (w.item)(list, (2 * m + 1) as u32);
        lemma_js_child_numbered(w, k, s0, depth);
        let (key, s1) = js_child(w, k, s0, depth);
        lemma_js_child_numbered(w, v, s1, depth);
        let (val, s2) = js_child(w, v, s1, depth);
        assert(before.push((key, val)).drop_last() =~= before);
    }
}

proof fn lemma_js_entries_numbered<V>(w: JsWorld<V>, obj: V, names: V, n: nat, seen: Seq<V>, depth: nat)
    requires
        depth < MAX_MARSHAL_DEPTH,
    ensures
        entries_well_numbered(js_entries(w, obj, names, n, seen, depth).0, seen.len(), depth + 1) == Some(
            js_entries(w, obj, names, n, seen, depth).1.len(),
        ),
    decreases MAX_MARSHAL_DEPTH - depth, 1nat, n,
{
    if n > 0 {
        let m = (n - 1) as nat;
        lemma_js_entries_numbered(w, obj, names, m, seen, depth);
        let (before, s0) = js_entries(w, obj, names, m, seen, depth);
        if let Some(key) = (w.item)(names, m as u32) {
            lemma_js_child_numbered(w, (w.get)(obj, key), s0, depth);
            let (val, s1) = js_child(w, (w.get)(obj, key), s0, depth);
            assert(before.push(((w.text)(key), val)).drop_last() =~= before);
        }
    }
}

} // verus!
