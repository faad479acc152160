//! What is built in Ruby reads back as what it was built from.

use vstd::prelude::*;
use vstd::utf8::encode_utf8;

use crate::bigint::hex_words;
use crate::bigint::law_hex_round_trip;
use crate::bigint::magnitude;
use crate::js_read::js_tree;
use crate::js_read::JsWorld;
use crate::js_round_trip::js_plain;
use crate::js_round_trip::js_shows;
use crate::js_round_trip::law_js_round_trip;
use crate::js_round_trip::law_js_trees_are_well_numbered;
use crate::layout::entries_well_numbered;
use crate::layout::entry_images;
use crate::layout::image;
use crate::layout::images;
use crate::layout::items_numbered;
use crate::layout::layout;
use crate::layout::lemma_built;
use crate::layout::lemma_entry_numbers_grow;
use crate::layout::lemma_item_numbers_grow;
use crate::layout::lemma_layout_len;
use crate::layout::lemma_numbers_grow;
use crate::layout::lemma_pair_numbers_grow;
use crate::layout::pair_images;
use crate::layout::pairs_well_numbered;
use crate::layout::plan_wf;
use crate::layout::texts_fit;
use crate::layout::well_numbered;
use crate::layout::Node;
use crate::plan::build_plan;
use crate::plan::no_plan;
use crate::plan::plan_value;
use crate::plan::Plan;
use crate::plan::Side;
use crate::rb_read::rb_child;
use crate::rb_read::rb_container;
use crate::rb_read::rb_entries;
use crate::rb_read::rb_entry;
use crate::rb_read::rb_item;
use crate::rb_read::rb_items;
use crate::rb_read::rb_key;
use crate::rb_read::rb_pair;
use crate::rb_read::rb_pairs;
use crate::rb_read::rb_shape;
use crate::rb_read::rb_sighting;
use crate::rb_read::rb_tree;
use crate::rb_read::rb_value;
use crate::rb_read::RbEncoding;
use crate::rb_read::RbFault;
use crate::rb_read::RbShape;
use crate::rb_read::RbSighting;
use crate::rb_read::RbTest;
use crate::rb_read::RbWorld;
use crate::rb_read::MAX_EXACT_INT;
use crate::value::JsTree;
use crate::value::MAX_MARSHAL_DEPTH;

verus! {

/// A value without parts that comes back from Ruby in exactly this form. Ruby
/// has a single kind of integer, so a small one comes back as a number and a
/// large one as a big integer. `kept` says what becomes of a date's milliseconds
/// on the way through a `Time`.
pub open spec fn rb_plain_leaf(kept: spec_fn(u64) -> u64, t: JsTree) -> bool {
    match t {
        JsTree::Undefined => false,
        JsTree::Int(i) => -MAX_EXACT_INT <= i <= MAX_EXACT_INT,
        JsTree::BigInt { words, .. } => words.len() > 0 && words.last() != 0 && magnitude(words)
            > MAX_EXACT_INT,
        JsTree::Date(ms) => kept(ms) == ms,
        _ => true,
    }
}

/// Every value of the tree comes back from Ruby in exactly this form.
pub open spec fn rb_plain(kept: spec_fn(u64) -> u64, t: JsTree) -> bool
    decreases t,
{
    match t {
        JsTree::Array { items, .. } => items.len() <= usize::MAX && forall|i: int|
            0 <= i < items.len() ==> rb_plain(kept, #[trigger] items[i]),
        JsTree::JsSet { items, .. } => items.len() <= usize::MAX && forall|i: int|
            0 <= i < items.len() ==> rb_plain(kept, #[trigger] items[i]),
        JsTree::Obj { entries, .. } => entries.len() <= usize::MAX && forall|i: int|
            0 <= i < entries.len() ==> rb_plain(kept, (#[trigger] entries[i]).1),
        JsTree::JsMap { pairs, .. } => pairs.len() <= usize::MAX && forall|i: int|
            0 <= i < pairs.len() ==> rb_plain(kept, (#[trigger] pairs[i]).0) && rb_plain(
                kept,
                pairs[i].1,
            ),
        _ => rb_plain_leaf(kept, t),
    }
}

/// Neither nil nor true nor false.
pub open spec fn past_singletons<V, X>(w: RbWorld<V, X>, v: V) -> bool {
    !(w.is)(v, RbTest::Nil) && !(w.is)(v, RbTest::True) && !(w.is)(v, RbTest::False)
}

/// No number either, nor a time or a symbol.
pub open spec fn past_numbers<V, X>(w: RbWorld<V, X>, v: V) -> bool {
    past_singletons(w, v) && !(w.is)(v, RbTest::Time) && !(w.is)(v, RbTest::Integer) && (w.float)(
        v,
    ) is None && !(w.is)(v, RbTest::Symbol)
}

/// No text either.
pub open spec fn past_texts<V, X>(w: RbWorld<V, X>, v: V) -> bool {
    past_numbers(w, v) && !(w.is)(v, RbTest::String) && !(w.is)(v, RbTest::StringLike)
}

/// Ruby shows a value without parts as what it was made from.
pub open spec fn rb_shows_leaf<V, X>(
    w: RbWorld<V, X>,
    kept: spec_fn(u64) -> u64,
    v: V,
    t: JsTree,
) -> bool {
    match t {
        JsTree::Null => (w.is)(v, RbTest::Nil),
        JsTree::Bool(b) => !(w.is)(v, RbTest::Nil) && (w.is)(v, RbTest::True) == b && (w.is)(
            v,
            RbTest::False,
        ) == !b,
        JsTree::Int(i) => past_singletons(w, v) && !(w.is)(v, RbTest::Time) && (w.is)(
            v,
            RbTest::Integer,
        ) && (w.small)(v) == Some(i),
        JsTree::Num(n) => past_singletons(w, v) && !(w.is)(v, RbTest::Time) && !(w.is)(
            v,
            RbTest::Integer,
        ) && (w.float)(v) == Some(n),
        JsTree::Date(ms) => past_singletons(w, v) && (w.is)(v, RbTest::Time) && (w.millis)(v) == Ok::<
            u64,
            X,
        >(kept(ms)),
        JsTree::Str(text) => past_numbers(w, v) && (w.is)(v, RbTest::String) && (w.encoding)(v)
            == RbEncoding::Utf8 && (w.bytes)(v) == encode_utf8(text),
        JsTree::Bytes { bytes, .. } => past_numbers(w, v) && (w.is)(v, RbTest::String)
            && (w.encoding)(v) == RbEncoding::Binary && (w.bytes)(v) == bytes,
        _ => true,
    }
}

/// Ruby shows what stands behind a step of a build: a container with everything
/// that was put into it, in order. `made` gives the value that a step made.
pub open spec fn rb_shows_node<V, X>(
    w: RbWorld<V, X>,
    kept: spec_fn(u64) -> u64,
    made: spec_fn(nat) -> V,
    v: V,
    node: Node,
) -> bool {
    match node {
        Node::Leaf(t) => rb_shows_leaf(w, kept, v, t),
        Node::Integer { negative, hex } => past_singletons(w, v) && !(w.is)(v, RbTest::Time) && (
        w.is)(v, RbTest::Integer) && ((w.small)(v) matches Some(i) && -MAX_EXACT_INT <= i
            <= MAX_EXACT_INT ==> magnitude(hex_words(encode_utf8(hex))) <= MAX_EXACT_INT) && (
        w.hex)(v) == Ok::<Seq<char>, X>(hex)
            && (w.negative)(v) == Ok::<bool, X>(negative),
        Node::JsSet(slots) => past_texts(w, v) && (w.is)(v, RbTest::SetObject) && ((w.to_a)(
            v,
        ) matches Ok(list) && rb_lists(w, made, list, slots)),
        Node::Array(slots) => past_texts(w, v) && !(w.is)(v, RbTest::SetObject) && ((w.array_of)(
            v,
        ) matches Some(list) && rb_lists(w, made, list, slots)),
        Node::JsMap(slots) => past_texts(w, v) && !(w.is)(v, RbTest::SetObject) && (w.array_of)(
            v,
        ) is None && (w.is)(v, RbTest::JsMap) && ((w.pairs)(v) matches Ok((way, n)) && rb_leads_by_pairs(
            w,
            made,
            way,
            n,
            slots,
        )),
        Node::Obj(slots) => past_texts(w, v) && !(w.is)(v, RbTest::SetObject) && (w.array_of)(
            v,
        ) is None && !(w.is)(v, RbTest::JsMap) && ((w.hash_of)(v) matches Some(hash) && ((w.pairs)(
            hash,
        ) matches Ok((way, n)) && rb_leads_by_entries(w, made, way, n, slots))),
        Node::Filling => true,
    }
}

pub open spec fn rb_lists<V, X>(
    w: RbWorld<V, X>,
    made: spec_fn(nat) -> V,
    list: V,
    slots: Seq<nat>,
) -> bool {
    &&& slots.len() <= usize::MAX ==> (w.len)(list) == slots.len()
    &&& forall|i: usize|
        i < slots.len() ==> #[trigger] (w.entry)(list, i) == Ok::<V, X>(made(slots[i as int]))
}

/// The way through a hash of `n` pairs meets what was put into it, in order.
pub open spec fn rb_leads_by_pairs<V, X>(
    w: RbWorld<V, X>,
    made: spec_fn(nat) -> V,
    way: V,
    n: usize,
    slots: Seq<(nat, nat)>,
) -> bool {
    &&& slots.len() <= usize::MAX ==> n == slots.len()
    &&& forall|i: usize|
        i < slots.len() ==> #[trigger] (w.pair)(way, i) == Ok::<Option<(V, V)>, X>(
            Some((made(slots[i as int].0), made(slots[i as int].1))),
        )
}

/// Keys are strings that hold the key's bytes.
pub open spec fn rb_leads_by_entries<V, X>(
    w: RbWorld<V, X>,
    made: spec_fn(nat) -> V,
    way: V,
    n: usize,
    slots: Seq<(Seq<char>, nat)>,
) -> bool {
    &&& slots.len() <= usize::MAX ==> n == slots.len()
    &&& forall|i: usize|
        #![trigger (w.pair)(way, i)]
        i < slots.len() ==> ((w.pair)(way, i) matches Ok(Some((key, val))) && (w.is)(
            key,
            RbTest::String,
        ) && (w.bytes)(key) == encode_utf8(slots[i as int].0) && val == made(slots[i as int].1))
}

/// Ruby shows everything that a build left behind, and tells two objects apart
/// exactly if two steps made them.
pub open spec fn rb_shows<V, X>(
    w: RbWorld<V, X>,
    kept: spec_fn(u64) -> u64,
    made: spec_fn(nat) -> V,
    nodes: Seq<Node>,
) -> bool {
    &&& forall|k: nat|
        k < nodes.len() ==> rb_shows_node(w, kept, made, #[trigger] made(k), nodes[k as int])
    &&& forall|k: nat|
        k < nodes.len() && nodes[k as int].is_object() ==> (#[trigger] (w.object_id)(
            made(k),
        )) is Ok
    &&& forall|j: nat, k: nat|
        j < nodes.len() && k < nodes.len() && nodes[j as int].is_object()
            && nodes[k as int].is_object() ==> (#[trigger] (w.object_id)(made(j)) == #[trigger] (
        w.object_id)(made(k)) <==> j == k)
}

/// The objects met so far are those with the first `n` ids.
spec fn met<V, X>(
    w: RbWorld<V, X>,
    seen: Seq<usize>,
    made: spec_fn(nat) -> V,
    built: Map<nat, nat>,
    n: nat,
) -> bool {
    seen.len() == n && forall|id: nat|
        id < n ==> (w.object_id)(made(built[id])) == Ok::<usize, X>(#[trigger] seen[id as int])
}

/// An object made under the next id has not been met; it is written out in full.
proof fn lemma_rb_not_met<V, X>(
    w: RbWorld<V, X>,
    kept: spec_fn(u64) -> u64,
    made: spec_fn(nat) -> V,
    p: Plan,
    ids: nat,
    seen: Seq<usize>,
    n: nat,
    depth: nat,
)
    requires
        rb_shows(w, kept, made, layout(p.steps)),
        layout(p.steps).len() == p.steps.len(),
        plan_wf(p, ids),
        n < ids,
        met(w, seen, made, p.built, n),
        depth < MAX_MARSHAL_DEPTH,
    ensures
        rb_sighting(w, made(p.built[n]), seen, depth) matches Ok((RbSighting::First(id), after))
            && id == n && met(w, after, made, p.built, n + 1),
{
    let v = made(p.built[n]);
    assert(layout(p.steps)[p.built[n] as int].is_object());
    assert((w.object_id)(v) is Ok);
    let oid = (w.object_id)(v)->Ok_0;
    if seen.contains(oid) {
        let j = choose|j: int| 0 <= j < seen.len() && seen[j] == oid;
        assert(seen[j as nat as int] == oid);
        assert(p.built[j as nat] < p.built[n]);
        assert(layout(p.steps)[p.built[j as nat] as int].is_object());
        assert((w.object_id)(made(p.built[j as nat])) == (w.object_id)(made(p.built[n])));
    }
    let after = seen.push(oid);
    assert forall|id: nat| id < n + 1 implies (w.object_id)(made(p.built[id])) == Ok::<usize, X>(
        #[trigger] after[id as int],
    ) by {
        if id < n {
            assert(seen[id as int] == after[id as int]);
        }
    }
}

/// An object that has been met is found under its id.
proof fn lemma_rb_met<V, X>(
    w: RbWorld<V, X>,
    kept: spec_fn(u64) -> u64,
    made: spec_fn(nat) -> V,
    p: Plan,
    ids: nat,
    seen: Seq<usize>,
    n: nat,
    id: nat,
    depth: nat,
)
    requires
        rb_shows(w, kept, made, layout(p.steps)),
        layout(p.steps).len() == p.steps.len(),
        plan_wf(p, ids),
        id < n <= ids,
        met(w, seen, made, p.built, n),
    ensures
        rb_sighting(w, made(p.built[id]), seen, depth) matches Ok((RbSighting::Again(j), after))
            && j == id && after == seen,
{
    let v = made(p.built[id]);
    assert((w.object_id)(v) == Ok::<usize, X>(seen[id as int]));
    let oid = seen[id as int];
    assert(seen.contains(oid));
    let j = seen.index_of(oid);
    assert(0 <= j < seen.len() && seen[j] == oid);
    assert(seen[j as nat as int] == oid);
    assert(layout(p.steps)[p.built[id] as int].is_object());
    assert(layout(p.steps)[p.built[j as nat] as int].is_object());
    assert((w.object_id)(made(p.built[j as nat])) == (w.object_id)(made(p.built[id])));
    if j < id {
        assert(p.built[j as nat] < p.built[id]);
    } else if id < j {
        assert(p.built[id] < p.built[j as nat]);
    }
}

/// A value that a build left behind reads back as the tree that it looks like.
proof fn lemma_rb_reads<V, X>(
    w: RbWorld<V, X>,
    kept: spec_fn(u64) -> u64,
    made: spec_fn(nat) -> V,
    p: Plan,
    ids: nat,
    t: JsTree,
    at: nat,
    from: nat,
    lo: nat,
    hi: nat,
    depth: nat,
    seen: Seq<usize>,
)
    requires
        rb_shows(w, kept, made, layout(p.steps)),
        layout(p.steps).len() == p.steps.len(),
        plan_wf(p, ids),
        image(Side::Ruby, layout(p.steps), p.built, at, t, from),
        well_numbered(t, lo, depth) == Some(hi),
        hi <= ids,
        rb_plain(kept, t),
        met(w, seen, made, p.built, lo),
    ensures
        rb_value(w, made(at), seen, depth) matches Ok((u, after)) && u == t && met(
            w,
            after,
            made,
            p.built,
            hi,
        ),
    decreases t,
{
    let nodes = layout(p.steps);
    let v = made(at);
    match t {
        JsTree::Ref(j) => {
            lemma_rb_ref(w, kept, made, p, ids, seen, lo, j, depth);
        },
        JsTree::Bytes { id, bytes } => {
            assert(rb_shows_node(w, kept, made, made(at), nodes[at as int]));
            assert(p.built[lo] == at);
            lemma_rb_not_met(w, kept, made, p, ids, seen, lo, 0);
        },
        JsTree::Str(text) => {
            assert(rb_shows_node(w, kept, made, made(at), nodes[at as int]));
            vstd::utf8::encode_utf8_valid_utf8(text);
            vstd::utf8::encode_utf8_decode_utf8(text);
        },
        JsTree::BigInt { negative, words } => {
            assert(rb_shows_node(w, kept, made, made(at), nodes[at as int]));
            law_hex_round_trip(words);
        },
        JsTree::Array { id, items } => {
            assert(rb_shows_node(w, kept, made, made(at), nodes[at as int]));
            lemma_item_numbers_grow(items, lo + 1, depth + 1);
            lemma_rb_not_met(w, kept, made, p, ids, seen, lo, depth);
            let opened = rb_sighting(w, v, seen, depth)->Ok_0.1;
            lemma_rb_reads_items(
                w,
                kept,
                made,
                p,
                ids,
                items,
                nodes[at as int]->Array_0,
                at + 1,
                lo + 1,
                hi,
                depth,
                (w.array_of)(v).unwrap(),
                opened,
            );
            assert(rb_value(w, v, seen, depth) == rb_container(w, v, seen, depth));
        },
        JsTree::JsSet { id, items } => {
            assert(rb_shows_node(w, kept, made, made(at), nodes[at as int]));
            lemma_item_numbers_grow(items, lo + 1, depth + 1);
            lemma_rb_not_met(w, kept, made, p, ids, seen, lo, depth);
            let opened = rb_sighting(w, v, seen, depth)->Ok_0.1;
            lemma_rb_reads_items(
                w,
                kept,
                made,
                p,
                ids,
                items,
                nodes[at as int]->JsSet_0,
                at + 1,
                lo + 1,
                hi,
                depth,
                (w.to_a)(v)->Ok_0,
                opened,
            );
            assert(rb_value(w, v, seen, depth) == rb_container(w, v, seen, depth));
        },
        JsTree::Obj { id, entries } => {
            assert(rb_shows_node(w, kept, made, made(at), nodes[at as int]));
            lemma_entry_numbers_grow(entries, lo + 1, depth + 1);
            lemma_rb_not_met(w, kept, made, p, ids, seen, lo, depth);
            let opened = rb_sighting(w, v, seen, depth)->Ok_0.1;
            lemma_rb_reads_entries(
                w,
                kept,
                made,
                p,
                ids,
                entries,
                nodes[at as int]->Obj_0,
                at + 1,
                lo + 1,
                hi,
                depth,
                (w.pairs)((w.hash_of)(v).unwrap())->Ok_0.0,
                opened,
            );
            assert(rb_value(w, v, seen, depth) == rb_container(w, v, seen, depth));
        },
        JsTree::JsMap { id, pairs } => {
            assert(rb_shows_node(w, kept, made, made(at), nodes[at as int]));
            lemma_pair_numbers_grow(pairs, lo + 1, depth + 1);
            lemma_rb_not_met(w, kept, made, p, ids, seen, lo, depth);
            let opened = rb_sighting(w, v, seen, depth)->Ok_0.1;
            lemma_rb_reads_pairs(
                w,
                kept,
                made,
                p,
                ids,
                pairs,
                nodes[at as int]->JsMap_0,
                at + 1,
                lo + 1,
                hi,
                depth,
                (w.pairs)(v)->Ok_0.0,
                opened,
            );
            assert(rb_value(w, v, seen, depth) == rb_container(w, v, seen, depth));
        },
        _ => {
            assert(rb_shows_node(w, kept, made, made(at), nodes[at as int]));
        },
    }
}

/// An object that a reference leads to is read as that reference.
proof fn lemma_rb_ref<V, X>(
    w: RbWorld<V, X>,
    kept: spec_fn(u64) -> u64,
    made: spec_fn(nat) -> V,
    p: Plan,
    ids: nat,
    seen: Seq<usize>,
    n: nat,
    id: nat,
    depth: nat,
)
    requires
        rb_shows(w, kept, made, layout(p.steps)),
        layout(p.steps).len() == p.steps.len(),
        plan_wf(p, ids),
        id < n <= ids,
        met(w, seen, made, p.built, n),
    ensures
        rb_value(w, made(p.built[id]), seen, depth) == Ok::<(JsTree, Seq<usize>), RbFault<X>>(
            (JsTree::Ref(id), seen),
        ),
{
    let at = p.built[id];
    let v = made(at);
    assert(layout(p.steps)[at as int].is_object());
    assert(rb_shows_node(w, kept, made, made(at), layout(p.steps)[at as int]));
    lemma_rb_met(w, kept, made, p, ids, seen, n, id, depth);
    lemma_rb_met(w, kept, made, p, ids, seen, n, id, 0);
    if !(layout(p.steps)[at as int] is Leaf) {
        assert(rb_value(w, v, seen, depth) == rb_container(w, v, seen, depth));
    }
}

proof fn lemma_rb_reads_items<V, X>(
    w: RbWorld<V, X>,
    kept: spec_fn(u64) -> u64,
    made: spec_fn(nat) -> V,
    p: Plan,
    ids: nat,
    items: Seq<JsTree>,
    slots: Seq<nat>,
    from: nat,
    lo: nat,
    hi: nat,
    depth: nat,
    list: V,
    seen: Seq<usize>,
)
    requires
        rb_shows(w, kept, made, layout(p.steps)),
        layout(p.steps).len() == p.steps.len(),
        plan_wf(p, ids),
        images(Side::Ruby, layout(p.steps), p.built, slots, items, from),
        items_numbered(items, lo, depth + 1) == Some(hi),
        hi <= ids,
        depth < MAX_MARSHAL_DEPTH,
        items.len() <= usize::MAX,
        forall|i: int| 0 <= i < items.len() ==> rb_plain(kept, #[trigger] items[i]),
        forall|i: usize|
            i < slots.len() ==> #[trigger] (w.entry)(list, i) == Ok::<V, X>(made(slots[i as int])),
        met(w, seen, made, p.built, lo),
    ensures
        slots.len() == items.len(),
        rb_items(w, list, items.len(), seen, depth) matches Ok((all, after)) && all == items && met(
            w,
            after,
            made,
            p.built,
            hi,
        ),
    decreases items,
{
    if items.len() > 0 {
        let fewer = items.drop_last();
        let mid = items_numbered(fewer, lo, depth + 1).unwrap();
        lemma_numbers_grow(items.last(), mid, depth + 1);
        lemma_rb_reads_items(
            w,
            kept,
            made,
            p,
            ids,
            fewer,
            slots.drop_last(),
            from,
            lo,
            mid,
            depth,
            list,
            seen,
        );
        let s0 = rb_items(w, list, fewer.len(), seen, depth)->Ok_0.1;
        let n = fewer.len();
        assert((w.entry)(list, n as usize) == Ok::<V, X>(made(slots.last())));
        lemma_rb_reads(
            w,
            kept,
            made,
            p,
            ids,
            items.last(),
            slots.last(),
            from,
            mid,
            hi,
            depth + 1,
            s0,
        );
        assert(rb_item(w, list, n, s0, depth) == rb_child(w, made(slots.last()), s0, depth));
        assert(rb_child(w, made(slots.last()), s0, depth) == rb_value(
            w,
            made(slots.last()),
            s0,
            depth + 1,
        ));
        assert(fewer.push(items.last()) =~= items);
    }
}

proof fn lemma_rb_reads_pairs<V, X>(
    w: RbWorld<V, X>,
    kept: spec_fn(u64) -> u64,
    made: spec_fn(nat) -> V,
    p: Plan,
    ids: nat,
    pairs: Seq<(JsTree, JsTree)>,
    slots: Seq<(nat, nat)>,
    from: nat,
    lo: nat,
    hi: nat,
    depth: nat,
    way: V,
    seen: Seq<usize>,
)
    requires
        rb_shows(w, kept, made, layout(p.steps)),
        layout(p.steps).len() == p.steps.len(),
        plan_wf(p, ids),
        pair_images(Side::Ruby, layout(p.steps), p.built, slots, pairs, from),
        pairs_well_numbered(pairs, lo, depth + 1) == Some(hi),
        hi <= ids,
        depth < MAX_MARSHAL_DEPTH,
        pairs.len() <= usize::MAX,
        forall|i: int|
            0 <= i < pairs.len() ==> rb_plain(kept, (#[trigger] pairs[i]).0) && rb_plain(
                kept,
                pairs[i].1,
            ),
        forall|i: usize|
            i < slots.len() ==> #[trigger] (w.pair)(way, i) == Ok::<Option<(V, V)>, X>(
                Some((made(slots[i as int].0), made(slots[i as int].1))),
            ),
        met(w, seen, made, p.built, lo),
    ensures
        slots.len() == pairs.len(),
        rb_pairs(w, way, pairs.len(), seen, depth) matches Ok((all, after)) && all == pairs && met(
            w,
            after,
            made,
            p.built,
            hi,
        ),
    decreases pairs,
{
    if pairs.len() > 0 {
        let fewer = pairs.drop_last();
        let mid = pairs_well_numbered(fewer, lo, depth + 1).unwrap();
        let end = well_numbered(pairs.last().0, mid, depth + 1).unwrap();
        lemma_numbers_grow(pairs.last().0, mid, depth + 1);
        lemma_numbers_grow(pairs.last().1, end, depth + 1);
        lemma_rb_reads_pairs(
            w,
            kept,
            made,
            p,
            ids,
            fewer,
            slots.drop_last(),
            from,
            lo,
            mid,
            depth,
            way,
            seen,
        );
        let s0 = rb_pairs(w, way, fewer.len(), seen, depth)->Ok_0.1;
        let n = fewer.len();
        assert((w.pair)(way, n as usize) == Ok::<Option<(V, V)>, X>(
            Some((made(slots.last().0), made(slots.last().1))),
        ));
        lemma_rb_reads(
            w,
            kept,
            made,
            p,
            ids,
            pairs.last().0,
            slots.last().0,
            from,
            mid,
            end,
            depth + 1,
            s0,
        );
        let k = made(slots.last().0);
        let v = made(slots.last().1);
        assert(rb_child(w, k, s0, depth) == rb_value(w, k, s0, depth + 1));
        let s1 = rb_child(w, k, s0, depth)->Ok_0.1;
        lemma_rb_reads(
            w,
            kept,
            made,
            p,
            ids,
            pairs.last().1,
            slots.last().1,
            from,
            end,
            hi,
            depth + 1,
            s1,
        );
        assert(rb_child(w, v, s1, depth) == rb_value(w, v, s1, depth + 1));
        assert(rb_pair(w, way, n, s0, depth) is Ok);
        assert(fewer.push(pairs.last()) =~= pairs);
    }
}

proof fn lemma_rb_reads_entries<V, X>(
    w: RbWorld<V, X>,
    kept: spec_fn(u64) -> u64,
    made: spec_fn(nat) -> V,
    p: Plan,
    ids: nat,
    entries: Seq<(Seq<char>, JsTree)>,
    slots: Seq<(Seq<char>, nat)>,
    from: nat,
    lo: nat,
    hi: nat,
    depth: nat,
    way: V,
    seen: Seq<usize>,
)
    requires
        rb_shows(w, kept, made, layout(p.steps)),
        layout(p.steps).len() == p.steps.len(),
        plan_wf(p, ids),
        entry_images(Side::Ruby, layout(p.steps), p.built, slots, entries, from),
        entries_well_numbered(entries, lo, depth + 1) == Some(hi),
        hi <= ids,
        depth < MAX_MARSHAL_DEPTH,
        entries.len() <= usize::MAX,
        forall|i: int| 0 <= i < entries.len() ==> rb_plain(kept, (#[trigger] entries[i]).1),
        forall|i: usize|
            #![trigger (w.pair)(way, i)]
            i < slots.len() ==> ((w.pair)(way, i) matches Ok(Some((key, val))) && (w.is)(
                key,
                RbTest::String,
            ) && (w.bytes)(key) == encode_utf8(slots[i as int].0) && val == made(
                slots[i as int].1,
            )),
        met(w, seen, made, p.built, lo),
    ensures
        slots.len() == entries.len(),
        rb_entries(w, way, entries.len(), seen, depth) matches Ok((all, after)) && all == entries && met(
            w,
            after,
            made,
            p.built,
            hi,
        ),
    decreases entries,
{
    if entries.len() > 0 {
        let fewer = entries.drop_last();
        let mid = entries_well_numbered(fewer, lo, depth + 1).unwrap();
        lemma_numbers_grow(entries.last().1, mid, depth + 1);
        lemma_rb_reads_entries(
            w,
            kept,
            made,
            p,
            ids,
            fewer,
            slots.drop_last(),
            from,
            lo,
            mid,
            depth,
            way,
            seen,
        );
        let s0 = rb_entries(w, way, fewer.len(), seen, depth)->Ok_0.1;
        let n = fewer.len();
        assert((w.pair)(way, n as usize) is Ok);
        let k = (w.pair)(way, n as usize)->Ok_0.unwrap().0;
        lemma_rb_reads(
            w,
            kept,
            made,
            p,
            ids,
            entries.last().1,
            slots.last().1,
            from,
            mid,
            hi,
            depth + 1,
            s0,
        );
        let v = made(slots.last().1);
        assert(rb_child(w, v, s0, depth) == rb_value(w, v, s0, depth + 1));
        vstd::utf8::encode_utf8_valid_utf8(entries.last().0);
        vstd::utf8::encode_utf8_decode_utf8(entries.last().0);
        assert(rb_key(w, k) == Ok::<Seq<char>, RbFault<X>>(entries.last().0));
        assert(rb_entry(w, way, n, s0, depth) is Ok);
        assert(fewer.push(entries.last()) =~= entries);
    }
}

/// What is built in Ruby reads back as what it was built from: containers of
/// every kind and what stands in them, objects that are shared, and objects that
/// lead back to themselves.
///
/// `w` is any Ruby that shows what the steps left behind, with everything that
/// was put into a container still in it and in that order. (Ruby itself holds no
/// two hash keys, and no two members of a set, that are equal by their
/// contents.)
pub proof fn law_rb_round_trip<V, X>(
    t: JsTree,
    w: RbWorld<V, X>,
    kept: spec_fn(u64) -> u64,
    made: spec_fn(nat) -> V,
)
    requires
        well_numbered(t, 0, 0) is Some,
        rb_plain(kept, t),
        build_plan(Side::Ruby, t) matches Some((steps, _)) && rb_shows(
            w,
            kept,
            made,
            layout(steps),
        ),
    ensures
        build_plan(Side::Ruby, t) matches Some((_, root)) && rb_tree(w, made(root)) == Ok::<
            JsTree,
            RbFault<X>,
        >(t),
{
    let ids = well_numbered(t, 0, 0).unwrap();
    let (p, at) = plan_value(Side::Ruby, t, no_plan()).unwrap();
    lemma_ruby_texts_fit(t);
    lemma_built(Side::Ruby, t, no_plan(), 0, ids, 0);
    lemma_layout_len(p.steps);
    lemma_rb_reads(w, kept, made, p, ids, t, at, 0, 0, ids, 0, seq![]);
}

/// Ruby makes strings of any length.
proof fn lemma_ruby_texts_fit(t: JsTree)
    ensures
        texts_fit(Side::Ruby, t),
    decreases t,
{
    match t {
        JsTree::Array { items, .. } | JsTree::JsSet { items, .. } => {
            assert forall|i: int| 0 <= i < items.len() implies texts_fit(
                Side::Ruby,
                #[trigger] items[i],
            ) by {
                lemma_ruby_texts_fit(items[i]);
            }
        },
        JsTree::Obj { entries, .. } => {
            assert forall|i: int| 0 <= i < entries.len() implies texts_fit(
                Side::Ruby,
                (#[trigger] entries[i]).1,
            ) by {
                lemma_ruby_texts_fit(entries[i].1);
            }
        },
        JsTree::JsMap { pairs, .. } => {
            assert forall|i: int| 0 <= i < pairs.len() implies texts_fit(
                Side::Ruby,
                (#[trigger] pairs[i]).0,
            ) && texts_fit(Side::Ruby, pairs[i].1) by {
                lemma_ruby_texts_fit(pairs[i].0);
                lemma_ruby_texts_fit(pairs[i].1);
            }
        },
        _ => {},
    }
}

/// No value turns itself into a binary string: such a string has no identity
/// that could be kept.
pub open spec fn no_binary_stand_ins<V, X>(w: RbWorld<V, X>) -> bool {
    forall|u: V|
        (w.is)(u, RbTest::StringLike) && !(w.is)(u, RbTest::String) ==> (#[trigger] (w.to_str)(
            u,
        ) matches Ok(s) ==> (w.encoding)(s) != RbEncoding::Binary)
}

/// Whatever is read from Ruby is well numbered, as long as no value turns itself
/// into a binary string: so it can be built again, and reads back as itself.
pub proof fn law_rb_trees_are_well_numbered<V, X>(w: RbWorld<V, X>, v: V)
    requires
        no_binary_stand_ins(w),
    ensures
        rb_tree(w, v) matches Ok(t) ==> well_numbered(t, 0, 0) is Some,
{
    lemma_rb_value_numbered(w, v, seq![], 0);
}

/// A script's value that crosses to Ruby and back is the same value.
pub proof fn law_script_values_survive_ruby<V, R, X>(
    w: JsWorld<V>,
    v: V,
    ruby: RbWorld<R, X>,
    kept: spec_fn(u64) -> u64,
    made: spec_fn(nat) -> R,
)
    requires
        rb_plain(kept, js_tree(w, v)),
        build_plan(Side::Ruby, js_tree(w, v)) matches Some((steps, _)) && rb_shows(
            ruby,
            kept,
            made,
            layout(steps),
        ),
    ensures
        build_plan(Side::Ruby, js_tree(w, v)) matches Some((_, root)) && rb_tree(ruby, made(root))
            == Ok::<JsTree, RbFault<X>>(js_tree(w, v)),
{
    law_js_trees_are_well_numbered(w, v);
    law_rb_round_trip(js_tree(w, v), ruby, kept, made);
}

/// A Ruby value that crosses to a script and back is the same value.
pub proof fn law_ruby_values_survive_scripts<V, R, X>(
    ruby: RbWorld<R, X>,
    v: R,
    t: JsTree,
    max_string: usize,
    w: JsWorld<V>,
    made: spec_fn(nat) -> V,
)
    requires
        rb_tree(ruby, v) == Ok::<JsTree, RbFault<X>>(t),
        no_binary_stand_ins(ruby),
        js_plain(t),
        texts_fit(Side::JavaScript { max_string }, t),
        build_plan(Side::JavaScript { max_string }, t) matches Some((steps, _)) && js_shows(
            w,
            made,
            layout(steps),
        ),
    ensures
        build_plan(Side::JavaScript { max_string }, t) matches Some((_, root)) && js_tree(
            w,
            made(root),
        ) == t,
{
    law_rb_trees_are_well_numbered(ruby, v);
    law_js_round_trip(max_string, t, w, made);
}

proof fn lemma_rb_value_numbered<V, X>(w: RbWorld<V, X>, v: V, seen: Seq<usize>, depth: nat)
    requires
        no_binary_stand_ins(w),
        depth <= MAX_MARSHAL_DEPTH,
    ensures
        rb_value(w, v, seen, depth) matches Ok((t, after)) ==> well_numbered(t, seen.len(), depth)
            == Some(after.len()),
    decreases MAX_MARSHAL_DEPTH - depth, 4nat, 0nat,
{
    lemma_rb_container_numbered(w, v, seen, depth);
    if let Ok(oid) = (w.object_id)(v) {
        if seen.contains(oid) {
            let j = seen.index_of(oid);
            assert(0 <= j < seen.len());
        }
    }
    if (w.is)(v, RbTest::StringLike) {
        assert((w.to_str)(v) is Ok || (w.to_str)(v) is Err);
    }
}

proof fn lemma_rb_container_numbered<V, X>(w: RbWorld<V, X>, v: V, seen: Seq<usize>, depth: nat)
    requires
        no_binary_stand_ins(w),
        depth <= MAX_MARSHAL_DEPTH,
    ensures
        rb_container(w, v, seen, depth) matches Ok((t, after)) ==> well_numbered(
            t,
            seen.len(),
            depth,
        ) == Some(after.len()),
    decreases MAX_MARSHAL_DEPTH - depth, 3nat, 0nat,
{
    let shape = rb_shape(w, v);
    if let Ok(oid) = (w.object_id)(v) {
        if seen.contains(oid) {
            let j = seen.index_of(oid);
            assert(0 <= j < seen.len());
        }
    }
    if let Ok((RbSighting::First(id), opened)) = rb_sighting(w, v, seen, depth) {
        match shape {
            RbShape::SetObject => {
                if let Ok(list) = (w.to_a)(v) {
                    lemma_rb_items_numbered(w, list, (w.len)(list) as nat, opened, depth);
                }
            },
            RbShape::Array(list) => {
                lemma_rb_items_numbered(w, list, (w.len)(list) as nat, opened, depth);
            },
            RbShape::JsMap => {
                if let Ok((way, n)) = (w.pairs)(v) {
                    lemma_rb_pairs_numbered(w, way, n as nat, opened, depth);
                }
            },
            RbShape::Hash(hash) => {
                if let Ok((way, n)) = (w.pairs)(hash) {
                    lemma_rb_entries_numbered(w, way, n as nat, opened, depth);
                }
            },
            RbShape::Unknown => {},
        }
    }
}

proof fn lemma_rb_child_numbered<V, X>(w: RbWorld<V, X>, v: V, seen: Seq<usize>, depth: nat)
    requires
        no_binary_stand_ins(w),
        depth < MAX_MARSHAL_DEPTH,
    ensures
        rb_child(w, v, seen, depth) matches Ok((t, after)) ==> well_numbered(
            t,
            seen.len(),
            depth + 1,
        ) == Some(after.len()),
    decreases MAX_MARSHAL_DEPTH - depth, 0nat, 0nat,
{
    lemma_rb_value_numbered(w, v, seen, depth + 1);
}

proof fn lemma_rb_items_numbered<V, X>(
    w: RbWorld<V, X>,
    list: V,
    n: nat,
    seen: Seq<usize>,
    depth: nat,
)
    requires
        no_binary_stand_ins(w),
        depth < MAX_MARSHAL_DEPTH,
    ensures
        rb_items(w, list, n, seen, depth) matches Ok((all, after)) ==> items_numbered(
            all,
            seen.len(),
            depth + 1,
        ) == Some(after.len()),
    decreases MAX_MARSHAL_DEPTH - depth, 2nat, n,
{
    if n > 0 {
        let m = (n - 1) as nat;
        lemma_rb_items_numbered(w, list, m, seen, depth);
        if let Ok((before, s0)) = rb_items(w, list, m, seen, depth) {
            if let Ok(v) = (w.entry)(list, m as usize) {
                lemma_rb_child_numbered(w, v, s0, depth);
            }
            if let Ok((one, s1)) = rb_item(w, list, m, s0, depth) {
                assert(before.push(one).drop_last() =~= before);
            }
        }
    }
}

proof fn lemma_rb_pairs_numbered<V, X>(
    w: RbWorld<V, X>,
    way: V,
    n: nat,
    seen: Seq<usize>,
    depth: nat,
)
    requires
        no_binary_stand_ins(w),
        depth < MAX_MARSHAL_DEPTH,
    ensures
        rb_pairs(w, way, n, seen, depth) matches Ok((all, after)) ==> pairs_well_numbered(
            all,
            seen.len(),
            depth + 1,
        ) == Some(after.len()),
    decreases MAX_MARSHAL_DEPTH - depth, 2nat, n,
{
    if n > 0 {
        let m = (n - 1) as nat;
        lemma_rb_pairs_numbered(w, way, m, seen, depth);
        if let Ok((before, s0)) = rb_pairs(w, way, m, seen, depth) {
            if let Ok(Some((k, v))) = (w.pair)(way, m as usize) {
                lemma_rb_child_numbered(w, k, s0, depth);
                if let Ok((key, mid)) = rb_child(w, k, s0, depth) {
                    lemma_rb_child_numbered(w, v, mid, depth);
                }
            }
            if let Ok((Some(one), s1)) = rb_pair(w, way, m, s0, depth) {
                assert(before.push(one).drop_last() =~= before);
            }
        }
    }
}

proof fn lemma_rb_entries_numbered<V, X>(
    w: RbWorld<V, X>,
    way: V,
    n: nat,
    seen: Seq<usize>,
    depth: nat,
)
    requires
        no_binary_stand_ins(w),
        depth < MAX_MARSHAL_DEPTH,
    ensures
        rb_entries(w, way, n, seen, depth) matches Ok((all, after)) ==> entries_well_numbered(
            all,
            seen.len(),
            depth + 1,
        ) == Some(after.len()),
    decreases MAX_MARSHAL_DEPTH - depth, 2nat, n,
{
    if n > 0 {
        let m = (n - 1) as nat;
        lemma_rb_entries_numbered(w, way, m, seen, depth);
        if let Ok((before, s0)) = rb_entries(w, way, m, seen, depth) {
            if let Ok(Some((k, v))) = (w.pair)(way, m as usize) {
                lemma_rb_child_numbered(w, v, s0, depth);
            }
            if let Ok((Some(one), s1)) = rb_entry(w, way, m, s0, depth) {
                assert(before.push(one).drop_last() =~= before);
            }
        }
    }
}

} // verus!
