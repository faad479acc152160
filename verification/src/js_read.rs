//! Reading a JavaScript value: what the engine is asked, in which order, and
//! what comes of its answers.
//!
//! The engine is reached through one function from questions to answers, over a
//! handle type `V` that stays opaque here.

use std::collections::HashMap;
use vstd::prelude::*;

use crate::value::all_numbered;
use crate::value::entries_numbered;
use crate::value::entry_trees;
use crate::value::lemma_all_numbered_push;
use crate::value::lemma_container_trees;
use crate::value::lemma_entries_numbered_push;
use crate::value::lemma_pairs_numbered_push;
use crate::value::numbered;
use crate::value::pair_trees;
use crate::value::pairs_numbered;
use crate::value::trees;
use crate::value::JsTree;
use crate::value::JsVal;
use crate::value::MAX_MARSHAL_DEPTH;

verus! {

/// The engine's type predicates on one value. An object may answer yes to
/// several of them.
#[derive(Debug, Clone, Copy, PartialEq, Eq, Structural)]
pub struct JsTests {
    pub undefined: bool,
    pub null: bool,
    pub boolean: bool,
    pub int32: bool,
    pub number: bool,
    pub big_int: bool,
    pub date: bool,
    pub array_buffer_view: bool,
    pub array_buffer: bool,
    pub shared_array_buffer: bool,
    pub map: bool,
    pub set: bool,
    pub array: bool,
    pub object: bool,
    pub function: bool,
}

/// How a value crosses.
#[derive(Debug, Clone, Copy, PartialEq, Eq, Structural)]
pub enum JsClass {
    Undefined,
    Null,
    Bool,
    Int,
    Num,
    BigInt,
    Date,
    View,
    Buffer,
    SharedBuffer,
    MapObject,
    SetObject,
    Array,
    Object,
    Text,
}

/// The first predicate that holds decides; a function, a symbol and whatever
/// else there is cross as text.
pub open spec fn class_of(t: JsTests) -> JsClass {
    if t.undefined {
        JsClass::Undefined
    } else if t.null {
        JsClass::Null
    } else if t.boolean {
        JsClass::Bool
    } else if t.int32 {
        JsClass::Int
    } else if t.number {
        JsClass::Num
    } else if t.big_int {
        JsClass::BigInt
    } else if t.date {
        JsClass::Date
    } else if t.array_buffer_view {
        JsClass::View
    } else if t.array_buffer {
        JsClass::Buffer
    } else if t.shared_array_buffer {
        JsClass::SharedBuffer
    } else if t.map {
        JsClass::MapObject
    } else if t.set {
        JsClass::SetObject
    } else if t.array {
        JsClass::Array
    } else if t.object && !t.function {
        JsClass::Object
    } else {
        JsClass::Text
    }
}

/// How a value with these predicates crosses.
pub fn classify(t: JsTests) -> (class: JsClass)
    ensures
        class == class_of(t),
{
    if t.undefined {
        JsClass::Undefined
    } else if t.null {
        JsClass::Null
    } else if t.boolean {
        JsClass::Bool
    } else if t.int32 {
        JsClass::Int
    } else if t.number {
        JsClass::Num
    } else if t.big_int {
        JsClass::BigInt
    } else if t.date {
        JsClass::Date
    } else if t.array_buffer_view {
        JsClass::View
    } else if t.array_buffer {
        JsClass::Buffer
    } else if t.shared_array_buffer {
        JsClass::SharedBuffer
    } else if t.map {
        JsClass::MapObject
    } else if t.set {
        JsClass::SetObject
    } else if t.array {
        JsClass::Array
    } else if t.object && !t.function {
        JsClass::Object
    } else {
        JsClass::Text
    }
}

/// A question to the JavaScript engine.
#[derive(Debug)]
pub enum JsAsk<V> {
    /// The type predicates of a value.
    Tests(V),
    Bool(V),
    Int(V),
    Num(V),
    BigInt(V),
    Date(V),
    /// An object's identity hash. Two objects may share one.
    Hash(V),
    /// Are these the same object?
    Same(V, V),
    /// The bytes of a buffer, or those that a view looks at.
    Bytes(V, JsClass),
    /// The value as text.
    Text(V),
    /// The elements of an array or a set, or keys and values of a map in turn:
    /// a list and its length.
    Elements(V, JsClass),
    /// One element of a list.
    Item(V, u32),
    /// An object's own property names: a list and its length.
    Names(V),
    /// A property of an object.
    Get(V, V),
}

/// An answer of the JavaScript engine.
#[derive(Debug)]
pub enum JsTold<V> {
    Tests(JsTests),
    Bool(bool),
    Int(i64),
    Num(u64),
    BigInt(bool, Vec<u64>),
    Date(u64),
    Hash(i32),
    Same(bool),
    Bytes(Vec<u8>),
    Text(String),
    Elements(V, u32),
    Item(Option<V>),
    Names(Option<(V, u32)>),
    Get(Option<V>),
}

/// What the engine would say to every question.
#[verifier::reject_recursive_types(V)]
pub struct JsWorld<V> {
    pub tests: spec_fn(V) -> JsTests,
    pub boolean: spec_fn(V) -> bool,
    pub integer: spec_fn(V) -> i64,
    pub number: spec_fn(V) -> u64,
    pub big_int: spec_fn(V) -> (bool, Seq<u64>),
    pub date: spec_fn(V) -> u64,
    pub hash: spec_fn(V) -> i32,
    pub same: spec_fn(V, V) -> bool,
    pub bytes: spec_fn(V, JsClass) -> Seq<u8>,
    pub text: spec_fn(V) -> Seq<char>,
    pub elements: spec_fn(V, JsClass) -> (V, u32),
    pub item: spec_fn(V, u32) -> Option<V>,
    pub names: spec_fn(V) -> Option<(V, u32)>,
    pub get: spec_fn(V, V) -> Option<V>,
}

impl<V> JsWorld<V> {
    /// This answer to this question is the one that the world gives.
    pub open spec fn admits(self, q: JsAsk<V>, a: JsTold<V>) -> bool {
        match q {
            JsAsk::Tests(v) => a matches JsTold::Tests(t) && t == (self.tests)(v),
            JsAsk::Bool(v) => a matches JsTold::Bool(b) && b == (self.boolean)(v),
            JsAsk::Int(v) => a matches JsTold::Int(i) && i == (self.integer)(v),
            JsAsk::Num(v) => a matches JsTold::Num(n) && n == (self.number)(v),
            JsAsk::BigInt(v) => a matches JsTold::BigInt(s, ws) && (s, ws@) == (self.big_int)(v),
            JsAsk::Date(v) => a matches JsTold::Date(d) && d == (self.date)(v),
            JsAsk::Hash(v) => a matches JsTold::Hash(h) && h == (self.hash)(v),
            JsAsk::Same(u, v) => a matches JsTold::Same(b) && b == (self.same)(u, v),
            JsAsk::Bytes(v, c) => a matches JsTold::Bytes(bs) && bs@ == (self.bytes)(v, c),
            JsAsk::Text(v) => a matches JsTold::Text(s) && s@ == (self.text)(v),
            JsAsk::Elements(v, c) => a matches JsTold::Elements(l, n) && (l, n)
                == (self.elements)(v, c),
            JsAsk::Item(v, i) => a matches JsTold::Item(x) && x == (self.item)(v, i),
            JsAsk::Names(v) => a matches JsTold::Names(x) && x == (self.names)(v),
            JsAsk::Get(v, k) => a matches JsTold::Get(x) && x == (self.get)(v, k),
        }
    }
}

/// Every answer that `ask` can give is the one that the world gives.
pub open spec fn js_models<V, F: Fn(JsAsk<V>) -> JsTold<V>>(ask: F, w: JsWorld<V>) -> bool {
    forall|q: JsAsk<V>, a: JsTold<V>| #[trigger] call_ensures(ask, (q,), a) ==> w.admits(q, a)
}

/// `ask` may be asked anything.
pub open spec fn js_askable<V, F: Fn(JsAsk<V>) -> JsTold<V>>(ask: F) -> bool {
    forall|q: JsAsk<V>| #[trigger] call_requires(ask, (q,))
}

/// The position of an object among those already written out, if it is one of
/// them. It is found by its hash first and by identity second.
pub open spec fn js_find<V>(w: JsWorld<V>, seen: Seq<V>, v: V) -> Option<nat> {
    let j = js_first(w, seen, v, 0);
    if j < seen.len() {
        Some(j as nat)
    } else {
        None
    }
}

pub open spec fn js_is_at<V>(w: JsWorld<V>, seen: Seq<V>, v: V, j: int) -> bool {
    0 <= j < seen.len() && (w.hash)(seen[j]) == (w.hash)(v) && (w.same)(seen[j], v)
}

/// The first position, from `from` on, at which the object stands.
pub open spec fn js_first<V>(w: JsWorld<V>, seen: Seq<V>, v: V, from: int) -> int
    decreases seen.len() - from,
{
    if from < 0 || from >= seen.len() || js_is_at(w, seen, v, from) {
        from
    } else {
        js_first(w, seen, v, from + 1)
    }
}

/// How an object is written out: by reference, cut off, or in full under a new
/// id.
pub enum Sighting {
    Again(nat),
    TooDeep,
    First(nat),
}

/// An object that was cut off gets no id, so no reference can point to it.
pub open spec fn js_sighting<V>(w: JsWorld<V>, v: V, seen: Seq<V>, depth: nat) -> Sighting {
    match js_find(w, seen, v) {
        Some(j) => Sighting::Again(j),
        None => if depth >= MAX_MARSHAL_DEPTH {
            Sighting::TooDeep
        } else {
            Sighting::First(seen.len())
        },
    }
}

/// A value as it crosses, and the objects written out once it has: `seen` are
/// those written out before it.
pub open spec fn js_value<V>(w: JsWorld<V>, v: V, seen: Seq<V>, depth: nat) -> (JsTree, Seq<V>)
    decreases MAX_MARSHAL_DEPTH - depth, 2nat, 0nat,
{
    match class_of((w.tests)(v)) {
        JsClass::Undefined => (JsTree::Undefined, seen),
        JsClass::Null => (JsTree::Null, seen),
        JsClass::Bool => (JsTree::Bool((w.boolean)(v)), seen),
        JsClass::Int => (JsTree::Int((w.integer)(v)), seen),
        JsClass::Num => (JsTree::Num((w.number)(v)), seen),
        JsClass::BigInt => (
            JsTree::BigInt { negative: (w.big_int)(v).0, words: (w.big_int)(v).1 },
            seen,
        ),
        JsClass::Date => (JsTree::Date((w.date)(v)), seen),
        JsClass::Text => (JsTree::Str((w.text)(v)), seen),
        JsClass::View | JsClass::Buffer | JsClass::SharedBuffer => match js_find(w, seen, v) {
            Some(j) => (JsTree::Ref(j), seen),
            None => (
                JsTree::Bytes {
                    id: Some(seen.len()),
                    bytes: (w.bytes)(v, class_of((w.tests)(v))),
                },
                seen.push(v),
            ),
        },
        class => match js_sighting(w, v, seen, depth) {
            Sighting::Again(j) => (JsTree::Ref(j), seen),
            Sighting::TooDeep => (JsTree::Str((w.text)(v)), seen),
            Sighting::First(id) => js_contents(w, v, class, id, seen.push(v), depth),
        },
    }
}

/// A container as it is written out in full under the id `id`, the last one given
/// out. An object whose names cannot be listed crosses as text and gives its id
/// back, so that no reference can point to it.
pub open spec fn js_contents<V>(
    w: JsWorld<V>,
    v: V,
    class: JsClass,
    id: nat,
    seen: Seq<V>,
    depth: nat,
) -> (JsTree, Seq<V>)
    decreases MAX_MARSHAL_DEPTH - depth, 1nat, 0nat,
{
    if class == JsClass::Object {
        match (w.names)(v) {
            None => (JsTree::Str((w.text)(v)), seen.drop_last()),
            Some((names, n)) => {
                let (entries, after) = js_entries(w, v, names, n as nat, seen, depth);
                (JsTree::Obj { id, entries }, after)
            },
        }
    } else {
        let (list, n) = (w.elements)(v, class);
        if class == JsClass::MapObject {
            let (pairs, after) = js_pairs(w, list, (n / 2) as nat, seen, depth);
            (JsTree::JsMap { id, pairs }, after)
        } else {
            let (items, after) = js_items(w, list, n as nat, seen, depth);
            if class == JsClass::SetObject {
                (JsTree::JsSet { id, items }, after)
            } else {
                (JsTree::Array { id, items }, after)
            }
        }
    }
}

/// What stands inside an object at depth `depth`; nothing there reads as
/// undefined.
pub open spec fn js_child<V>(
    w: JsWorld<V>,
    v: Option<V>,
    seen: Seq<V>,
    depth: nat,
) -> (JsTree, Seq<V>)
    decreases MAX_MARSHAL_DEPTH - depth, 0nat, 0nat,
{
    match v {
        None => (JsTree::Undefined, seen),
        Some(x) => if depth < MAX_MARSHAL_DEPTH {
            js_value(w, x, seen, depth + 1)
        } else {
            arbitrary()
        },
    }
}

/// The first `n` elements of a list.
pub open spec fn js_items<V>(
    w: JsWorld<V>,
    list: V,
    n: nat,
    seen: Seq<V>,
    depth: nat,
) -> (Seq<JsTree>, Seq<V>)
    decreases MAX_MARSHAL_DEPTH - depth, 0nat, n,
{
    if n == 0 {
        (seq![], seen)
    } else {
        let (before, mid) = js_items(w, list, (n - 1) as nat, seen, depth);
        let (item, after) = js_child(w, (w.item)(list, (n - 1) as u32), mid, depth);
        (before.push(item), after)
    }
}

/// The first `n` pairs of a list in which keys and values alternate.
pub open spec fn js_pairs<V>(
    w: JsWorld<V>,
    list: V,
    n: nat,
    seen: Seq<V>,
    depth: nat,
) -> (Seq<(JsTree, JsTree)>, Seq<V>)
    decreases MAX_MARSHAL_DEPTH - depth, 0nat, n,
{
    if n == 0 {
        (seq![], seen)
    } else {
        let (before, s0) = js_pairs(w, list, (n - 1) as nat, seen, depth);
        let (key, s1) = js_child(w, (w.item)(list, (2 * (n - 1)) as u32), s0, depth);
        let (val, s2) = js_child(w, (w.item)(list, (2 * (n - 1) + 1) as u32), s1, depth);
        (before.push((key, val)), s2)
    }
}

/// The entries under the first `n` names of an object. A name that cannot be
/// read is left out.
pub open spec fn js_entries<V>(
    w: JsWorld<V>,
    obj: V,
    names: V,
    n: nat,
    seen: Seq<V>,
    depth: nat,
) -> (Seq<(Seq<char>, JsTree)>, Seq<V>)
    decreases MAX_MARSHAL_DEPTH - depth, 0nat, n,
{
    if n == 0 {
        (seq![], seen)
    } else {
        let (before, mid) = js_entries(w, obj, names, (n - 1) as nat, seen, depth);
        match (w.item)(names, (n - 1) as u32) {
            None => (before, mid),
            Some(key) => {
                let (val, after) = js_child(w, (w.get)(obj, key), mid, depth);
                (before.push(((w.text)(key), val)), after)
            },
        }
    }
}

/// The search only goes forward.
pub proof fn lemma_js_first_bound<V>(w: JsWorld<V>, seen: Seq<V>, v: V, from: int)
    ensures
        from <= js_first(w, seen, v, from),
    decreases seen.len() - from,
{
    if !(from < 0 || from >= seen.len() || js_is_at(w, seen, v, from)) {
        lemma_js_first_bound(w, seen, v, from + 1);
    }
}

/// If nothing before `to` is the object, the search may start at `to`.
pub proof fn lemma_js_first_skips<V>(w: JsWorld<V>, seen: Seq<V>, v: V, from: int, to: int)
    requires
        0 <= from <= to <= seen.len(),
        forall|j: int| from <= j < to ==> !js_is_at(w, seen, v, j),
    ensures
        js_first(w, seen, v, from) == js_first(w, seen, v, to),
    decreases to - from,
{
    if from < to {
        assert(!js_is_at(w, seen, v, from));
        lemma_js_first_skips(w, seen, v, from + 1, to);
    }
}

/// A JavaScript value as it crosses.
pub open spec fn js_tree<V>(w: JsWorld<V>, v: V) -> JsTree {
    js_value(w, v, seq![], 0).0
}

/// Holds of nothing.
fn no_tests() -> (out: JsTests)
    ensures
        !out.undefined,
        !out.null,
        !out.boolean,
        !out.int32,
        !out.number,
        !out.big_int,
        !out.date,
        !out.array_buffer_view,
        !out.array_buffer,
        !out.shared_array_buffer,
        !out.map,
        !out.set,
        !out.array,
        !out.object,
        !out.function,
{
    JsTests {
        undefined: false,
        null: false,
        boolean: false,
        int32: false,
        number: false,
        big_int: false,
        date: false,
        array_buffer_view: false,
        array_buffer: false,
        shared_array_buffer: false,
        map: false,
        set: false,
        array: false,
        object: false,
        function: false,
    }
}

// One question each. An answer that does not belong to the question counts as
// the plainest answer to it.

fn ask_tests<V: Copy, F: Fn(JsAsk<V>) -> JsTold<V>>(ask: &F, v: V) -> (out: JsTests)
    requires
        js_askable(*ask),
    ensures
        forall|w: JsWorld<V>| #[trigger] js_models(*ask, w) ==> out == (w.tests)(v),
{
    match ask(JsAsk::Tests(v)) {
        JsTold::Tests(t) => t,
        _ => no_tests(),
    }
}

fn ask_bool<V: Copy, F: Fn(JsAsk<V>) -> JsTold<V>>(ask: &F, v: V) -> (out: bool)
    requires
        js_askable(*ask),
    ensures
        forall|w: JsWorld<V>| #[trigger] js_models(*ask, w) ==> out == (w.boolean)(v),
{
    match ask(JsAsk::Bool(v)) {
        JsTold::Bool(b) => b,
        _ => false,
    }
}

fn ask_int<V: Copy, F: Fn(JsAsk<V>) -> JsTold<V>>(ask: &F, v: V) -> (out: i64)
    requires
        js_askable(*ask),
    ensures
        forall|w: JsWorld<V>| #[trigger] js_models(*ask, w) ==> out == (w.integer)(v),
{
    match ask(JsAsk::Int(v)) {
        JsTold::Int(i) => i,
        _ => 0,
    }
}

fn ask_num<V: Copy, F: Fn(JsAsk<V>) -> JsTold<V>>(ask: &F, v: V) -> (out: u64)
    requires
        js_askable(*ask),
    ensures
        forall|w: JsWorld<V>| #[trigger] js_models(*ask, w) ==> out == (w.number)(v),
{
    match ask(JsAsk::Num(v)) {
        JsTold::Num(n) => n,
        _ => 0,
    }
}

fn ask_big_int<V: Copy, F: Fn(JsAsk<V>) -> JsTold<V>>(ask: &F, v: V) -> (out: (bool, Vec<u64>))
    requires
        js_askable(*ask),
    ensures
        forall|w: JsWorld<V>| #[trigger] js_models(*ask, w) ==> (out.0, out.1@) == (w.big_int)(v),
{
    match ask(JsAsk::BigInt(v)) {
        JsTold::BigInt(s, ws) => (s, ws),
        _ => (false, Vec::new()),
    }
}

fn ask_date<V: Copy, F: Fn(JsAsk<V>) -> JsTold<V>>(ask: &F, v: V) -> (out: u64)
    requires
        js_askable(*ask),
    ensures
        forall|w: JsWorld<V>| #[trigger] js_models(*ask, w) ==> out == (w.date)(v),
{
    match ask(JsAsk::Date(v)) {
        JsTold::Date(d) => d,
        _ => 0,
    }
}

fn ask_hash<V: Copy, F: Fn(JsAsk<V>) -> JsTold<V>>(ask: &F, v: V) -> (out: i32)
    requires
        js_askable(*ask),
    ensures
        forall|w: JsWorld<V>| #[trigger] js_models(*ask, w) ==> out == (w.hash)(v),
{
    match ask(JsAsk::Hash(v)) {
        JsTold::Hash(h) => h,
        _ => 0,
    }
}

fn ask_same<V: Copy, F: Fn(JsAsk<V>) -> JsTold<V>>(ask: &F, u: V, v: V) -> (out: bool)
    requires
        js_askable(*ask),
    ensures
        forall|w: JsWorld<V>| #[trigger] js_models(*ask, w) ==> out == (w.same)(u, v),
{
    match ask(JsAsk::Same(u, v)) {
        JsTold::Same(b) => b,
        _ => false,
    }
}

fn ask_bytes<V: Copy, F: Fn(JsAsk<V>) -> JsTold<V>>(ask: &F, v: V, class: JsClass) -> (out: Vec<u8>)
    requires
        js_askable(*ask),
    ensures
        forall|w: JsWorld<V>| #[trigger] js_models(*ask, w) ==> out@ == (w.bytes)(v, class),
{
    match ask(JsAsk::Bytes(v, class)) {
        JsTold::Bytes(b) => b,
        _ => Vec::new(),
    }
}

fn ask_text<V: Copy, F: Fn(JsAsk<V>) -> JsTold<V>>(ask: &F, v: V) -> (out: String)
    requires
        js_askable(*ask),
    ensures
        forall|w: JsWorld<V>| #[trigger] js_models(*ask, w) ==> out@ == (w.text)(v),
{
    match ask(JsAsk::Text(v)) {
        JsTold::Text(s) => s,
        _ => String::new(),
    }
}

fn ask_elements<V: Copy, F: Fn(JsAsk<V>) -> JsTold<V>>(ask: &F, v: V, class: JsClass) -> (out: (V, u32))
    requires
        js_askable(*ask),
    ensures
        forall|w: JsWorld<V>| #[trigger] js_models(*ask, w) ==> out == (w.elements)(v, class),
{
    match ask(JsAsk::Elements(v, class)) {
        JsTold::Elements(l, n) => (l, n),
        _ => (v, 0),
    }
}

fn ask_item<V: Copy, F: Fn(JsAsk<V>) -> JsTold<V>>(ask: &F, list: V, i: u32) -> (out: Option<V>)
    requires
        js_askable(*ask),
    ensures
        forall|w: JsWorld<V>| #[trigger] js_models(*ask, w) ==> out == (w.item)(list, i),
{
    match ask(JsAsk::Item(list, i)) {
        JsTold::Item(x) => x,
        _ => None,
    }
}

fn ask_names<V: Copy, F: Fn(JsAsk<V>) -> JsTold<V>>(ask: &F, v: V) -> (out: Option<(V, u32)>)
    requires
        js_askable(*ask),
    ensures
        forall|w: JsWorld<V>| #[trigger] js_models(*ask, w) ==> out == (w.names)(v),
{
    match ask(JsAsk::Names(v)) {
        JsTold::Names(x) => x,
        _ => None,
    }
}

fn ask_get<V: Copy, F: Fn(JsAsk<V>) -> JsTold<V>>(ask: &F, v: V, key: V) -> (out: Option<V>)
    requires
        js_askable(*ask),
    ensures
        forall|w: JsWorld<V>| #[trigger] js_models(*ask, w) ==> out == (w.get)(v, key),
{
    match ask(JsAsk::Get(v, key)) {
        JsTold::Get(x) => x,
        _ => None,
    }
}

/// The objects written out so far. Their positions are their ids.
pub struct JsSeen<V> {
    /// Hash and handle of each object, in the order in which they were met.
    order: Vec<(i32, V)>,
    /// The positions of the objects with a given hash, in rising order.
    map: HashMap<i32, Vec<usize>>,
}

impl<V> JsSeen<V> {
    /// The objects written out so far, in order.
    pub closed spec fn view(&self) -> Seq<V> {
        Seq::new(self.order@.len(), |j: int| self.order@[j].1)
    }

    spec fn bucket_wf(self, h: i32, bucket: Seq<usize>) -> bool {
        &&& forall|k: int|
            0 <= k < bucket.len() ==> (#[trigger] bucket[k]) < self.order@.len()
                && self.order@[bucket[k] as int].0 == h
        &&& forall|k: int, l: int| 0 <= k < l < bucket.len() ==> bucket[k] < bucket[l]
    }

    pub closed spec fn wf(self) -> bool {
        &&& forall|h: i32|
            #[trigger] self.map@.contains_key(h) ==> self.bucket_wf(h, self.map@[h]@)
        &&& forall|j: int|
            0 <= j < self.order@.len() ==> self.map@.contains_key((#[trigger] self.order@[j]).0)
                && self.map@[self.order@[j].0]@.contains(j as usize)
    }

    /// The hashes on record are those that the world gives.
    pub closed spec fn agrees(self, w: JsWorld<V>) -> bool {
        forall|j: int|
            0 <= j < self.order@.len() ==> (#[trigger] self.order@[j]).0 == (w.hash)(
                self.order@[j].1,
            )
    }

    /// Nothing has been written out.
    pub fn new() -> (seen: Self)
        ensures
            seen.wf(),
            seen@ == Seq::<V>::empty(),
            forall|w: JsWorld<V>| #[trigger] seen.agrees(w),
    {
        broadcast use vstd::std_specs::hash::group_hash_axioms;

        let seen = JsSeen { order: Vec::new(), map: HashMap::new() };
        assert(seen@ =~= Seq::<V>::empty());
        seen
    }

    /// Writes one more object down and returns its id.
    fn register(&mut self, hash: i32, value: V) -> (id: usize)
        requires
            old(self).wf(),
        ensures
            final(self).wf(),
            id == old(self)@.len(),
            final(self)@ == old(self)@.push(value),
            forall|w: JsWorld<V>|
                #[trigger] old(self).agrees(w) && hash == (w.hash)(value) ==> final(self).agrees(w),
    {
        broadcast use vstd::std_specs::hash::group_hash_axioms;

        let id: usize = self.order.len();
        let mut bucket: Vec<usize> = match self.map.remove(&hash) {
            Some(b) => b,
            None => Vec::new(),
        };
        let ghost before = bucket@;
        self.order.push((hash, value));
        bucket.push(id);
        self.map.insert(hash, bucket);
        proof {
            assert(self@ =~= old(self)@.push(value));
            assert(old(self).map@.contains_key(hash) ==> before == old(self).map@[hash]@);
            assert(old(self).bucket_wf(hash, before));
            assert(self.bucket_wf(hash, before.push(id)));
            assert forall|h: i32| #[trigger] self.map@.contains_key(h) implies self.bucket_wf(
                h,
                self.map@[h]@,
            ) by {
                if h != hash {
                    assert(old(self).map@.contains_key(h));
                }
            }
            assert forall|j: int| 0 <= j < self.order@.len() implies self.map@.contains_key(
                (#[trigger] self.order@[j]).0,
            ) && self.map@[self.order@[j].0]@.contains(j as usize) by {
                if j < id {
                    assert(old(self).order@[j] == self.order@[j]);
                    let h = old(self).order@[j].0;
                    let k = old(self).map@[h]@.index_of(j as usize);
                    assert(self.map@[h]@[k] == j);
                } else {
                    assert(self.map@[hash]@[before.len() as int] == id);
                }
            }
        }
        id
    }

    /// Takes back the object written down last.
    fn forget_last(&mut self)
        requires
            old(self).wf(),
            old(self)@.len() > 0,
        ensures
            final(self).wf(),
            final(self)@ == old(self)@.drop_last(),
            forall|w: JsWorld<V>| #[trigger] old(self).agrees(w) ==> final(self).agrees(w),
    {
        broadcast use vstd::std_specs::hash::group_hash_axioms;

        let id: usize = self.order.len() - 1;
        if let Some((hash, _)) = self.order.pop() {
            assert(old(self).order@[id as int].0 == hash);
            let ghost before = old(self).map@[hash]@;
            let ghost k = before.index_of(id);
            assert(old(self).bucket_wf(hash, before));
            assert(before[k] == id);
            assert(k == before.len() - 1) by {
                if k < before.len() - 1 {
                    assert(before[k] < before[before.len() - 1]);
                }
            }
            if let Some(bucket) = self.map.remove(&hash) {
                let mut bucket: Vec<usize> = bucket;
                bucket.pop();
                self.map.insert(hash, bucket);
            }
            proof {
                assert(self@ =~= old(self)@.drop_last());
                assert(self.map@[hash]@ =~= before.drop_last());
                assert forall|h: i32| #[trigger] self.map@.contains_key(h) implies self.bucket_wf(
                    h,
                    self.map@[h]@,
                ) by {
                    assert(old(self).map@.contains_key(h));
                    let all = old(self).map@[h]@;
                    assert(old(self).bucket_wf(h, all));
                    assert forall|i: int| 0 <= i < self.map@[h]@.len() implies (
                    #[trigger] self.map@[h]@[i]) < self.order@.len() && self.order@[
                        self.map@[h]@[i] as int
                    ].0 == h by {
                        assert(all[i] == self.map@[h]@[i]);
                        if h == hash {
                            assert(all[i] < all[k]);
                        }
                    }
                }
                assert forall|j: int| 0 <= j < self.order@.len() implies self.map@.contains_key(
                    (#[trigger] self.order@[j]).0,
                ) && self.map@[self.order@[j].0]@.contains(j as usize) by {
                    assert(old(self).order@[j] == self.order@[j]);
                    let h = self.order@[j].0;
                    let i = old(self).map@[h]@.index_of(j as usize);
                    assert(old(self).map@[h]@[i] == j);
                    assert(self.map@[h]@[i] == j);
                }
            }
        }
    }
}

/// Decides how an object is written out: the id under which to write it out in
/// full, having written it down, or what stands for it.
pub fn js_container_id<V: Copy, F: Fn(JsAsk<V>) -> JsTold<V>>(
    ask: &F,
    seen: &mut JsSeen<V>,
    value: V,
    depth: u32,
) -> (out: Result<usize, JsVal>)
    requires
        js_askable(*ask),
        old(seen).wf(),
    ensures
        final(seen).wf(),
        out matches Ok(id) ==> depth < MAX_MARSHAL_DEPTH && id == old(seen)@.len()
            && final(seen)@ == old(seen)@.push(value),
        out matches Err(v) ==> final(seen)@ == old(seen)@ && match v.tree() {
            JsTree::Ref(j) => j < old(seen)@.len(),
            t => t is Str,
        },
        forall|w: JsWorld<V>|
            #![trigger js_models(*ask, w), old(seen).agrees(w)]
            js_models(*ask, w) && old(seen).agrees(w) ==> final(seen).agrees(w) && match js_sighting(
                w,
                value,
                old(seen)@,
                depth as nat,
            ) {
                Sighting::Again(j) => out matches Err(v) && v.tree() == JsTree::Ref(j),
                Sighting::TooDeep => out matches Err(v) && v.tree() == JsTree::Str((w.text)(value)),
                Sighting::First(_) => out is Ok,
            },
{
    broadcast use vstd::std_specs::hash::group_hash_axioms;

    let hash = ask_hash(ask, value);
    let ghost known = seen@;
    if let Some(bucket) = seen.map.get(&hash) {
        let mut k: usize = 0;
        while k < bucket.len()
            invariant
                js_askable(*ask),
                seen.wf(),
                seen.map@.contains_key(hash),
                *bucket == seen.map@[hash],
                seen@ == known,
                k <= bucket@.len(),
                forall|w: JsWorld<V>| #[trigger] js_models(*ask, w) ==> hash == (w.hash)(value),
                forall|w: JsWorld<V>, i: int|
                    #![trigger js_models(*ask, w), bucket@[i]]
                    js_models(*ask, w) && 0 <= i < k ==> !(w.same)(known[bucket@[i] as int], value),
            decreases bucket@.len() - k,
        {
            let id: usize = bucket[k];
            assert(seen.bucket_wf(hash, bucket@));
            let known_value: V = seen.order[id].1;
            if ask_same(ask, known_value, value) {
                proof {
                    assert forall|w: JsWorld<V>|
                        #![trigger js_models(*ask, w), seen.agrees(w)]
                        js_models(*ask, w) && seen.agrees(w) implies js_sighting(
                        w,
                        value,
                        known,
                        depth as nat,
                    ) == Sighting::Again(id as nat) by {
                        assert forall|j: int| 0 <= j < id implies !js_is_at(w, known, value, j) by {
                            if (w.hash)(known[j]) == (w.hash)(value) {
                                assert(seen.order@[j].0 == hash);
                                let i = bucket@.index_of(j as usize);
                                assert(bucket@[i] == j);
                                if i >= k {
                                    assert(bucket@[k as int] <= bucket@[i]);
                                }
                            }
                        }
                        lemma_js_first_skips(w, known, value, 0, id as int);
                        assert(seen.order@[id as int].0 == hash);
                        assert(js_is_at(w, known, value, id as int));
                    }
                }
                return Err(JsVal::Ref(id));
            }
            k = k + 1;
        }
        proof {
            assert forall|w: JsWorld<V>|
                #![trigger js_models(*ask, w), seen.agrees(w)]
                js_models(*ask, w) && seen.agrees(w) implies js_find(w, known, value) is None by {
                assert forall|j: int| 0 <= j < known.len() implies !js_is_at(w, known, value, j) by {
                    if (w.hash)(known[j]) == (w.hash)(value) {
                        assert(j < seen.order.len());
                        assert(seen.order@[j].0 == hash);
                        let i = bucket@.index_of(j as usize);
                        assert(bucket@[i] == j);
                    }
                }
                lemma_js_first_skips(w, known, value, 0, known.len() as int);
            }
        }
    } else {
        proof {
            assert forall|w: JsWorld<V>|
                #![trigger js_models(*ask, w), seen.agrees(w)]
                js_models(*ask, w) && seen.agrees(w) implies js_find(w, known, value) is None by {
                assert forall|j: int| 0 <= j < known.len() implies !js_is_at(w, known, value, j) by {
                    if (w.hash)(known[j]) == (w.hash)(value) {
                        assert(seen.order@[j].0 == hash);
                    }
                }
                lemma_js_first_skips(w, known, value, 0, known.len() as int);
            }
        }
    }
    if depth >= MAX_MARSHAL_DEPTH {
        return Err(JsVal::Str(ask_text(ask, value)));
    }
    Ok(seen.register(hash, value))
}

/// Reads a JavaScript value.
pub fn js_to_jsval<V: Copy, F: Fn(JsAsk<V>) -> JsTold<V>>(ask: &F, value: V) -> (out: JsVal)
    requires
        js_askable(*ask),
    ensures
        exists|ids: nat| #[trigger] numbered(out.tree(), 0, ids, 0),
        forall|w: JsWorld<V>| #[trigger] js_models(*ask, w) ==> out.tree() == js_tree(w, value),
{
    let mut seen: JsSeen<V> = JsSeen::new();
    let ghost start = seen;
    let out = js_to_jsval_d(ask, value, &mut seen, 0);
    assert forall|w: JsWorld<V>| #[trigger] js_models(*ask, w) implies out.tree() == js_tree(
        w,
        value,
    ) by {
        assert(start.agrees(w));
    }
    out
}

/// Reads a JavaScript value that stands `depth` containers deep.
pub fn js_to_jsval_d<V: Copy, F: Fn(JsAsk<V>) -> JsTold<V>>(
    ask: &F,
    value: V,
    seen: &mut JsSeen<V>,
    depth: u32,
) -> (out: JsVal)
    requires
        js_askable(*ask),
        old(seen).wf(),
        depth <= MAX_MARSHAL_DEPTH,
    ensures
        final(seen).wf(),
        numbered(out.tree(), old(seen)@.len(), final(seen)@.len(), depth as nat),
        forall|w: JsWorld<V>|
            #![trigger js_models(*ask, w), old(seen).agrees(w)]
            js_models(*ask, w) && old(seen).agrees(w) ==> final(seen).agrees(w) && (
            out.tree(),
            final(seen)@,
            ) == js_value(w, value, old(seen)@, depth as nat),
    decreases MAX_MARSHAL_DEPTH - depth, 3nat,
{
    let class = classify(ask_tests(ask, value));
    match class {
        JsClass::Undefined => JsVal::Undefined,
        JsClass::Null => JsVal::Null,
        JsClass::Bool => JsVal::Bool(ask_bool(ask, value)),
        JsClass::Int => JsVal::Int(ask_int(ask, value)),
        JsClass::Num => JsVal::Num(ask_num(ask, value)),
        JsClass::BigInt => {
            let (negative, words) = ask_big_int(ask, value);
            JsVal::BigInt { negative, words }
        },
        JsClass::Date => JsVal::Date(ask_date(ask, value)),
        JsClass::Text => JsVal::Str(ask_text(ask, value)),
        // A buffer holds no values, so it is never cut off, however deep it stands.
        JsClass::View | JsClass::Buffer | JsClass::SharedBuffer => match js_container_id(
            ask,
            seen,
            value,
            0,
        ) {
            Err(stand_in) => stand_in,
            Ok(id) => JsVal::Bytes { id: Some(id), bytes: ask_bytes(ask, value, class) },
        },
        JsClass::MapObject | JsClass::SetObject | JsClass::Array | JsClass::Object =>
        match js_container_id(ask, seen, value, depth) {
            Err(stand_in) => stand_in,
            Ok(id) => js_read_container(ask, value, class, id, seen, depth),
        },
    }
}

/// Reads what a container holds; it has its id already.
fn js_read_container<V: Copy, F: Fn(JsAsk<V>) -> JsTold<V>>(
    ask: &F,
    value: V,
    class: JsClass,
    id: usize,
    seen: &mut JsSeen<V>,
    depth: u32,
) -> (out: JsVal)
    requires
        js_askable(*ask),
        old(seen).wf(),
        old(seen)@.len() == id + 1,
        depth < MAX_MARSHAL_DEPTH,
    ensures
        final(seen).wf(),
        numbered(out.tree(), id as nat, final(seen)@.len(), depth as nat),
        forall|w: JsWorld<V>|
            #![trigger js_models(*ask, w), old(seen).agrees(w)]
            js_models(*ask, w) && old(seen).agrees(w) ==> final(seen).agrees(w) && (
            out.tree(),
            final(seen)@,
            ) == js_contents(w, value, class, id as nat, old(seen)@, depth as nat),
    decreases MAX_MARSHAL_DEPTH - depth, 2nat,
{
    if class == JsClass::Object {
        match ask_names(ask, value) {
            None => {
                seen.forget_last();
                JsVal::Str(ask_text(ask, value))
            },
            Some((names, n)) => {
                let entries = js_read_entries(ask, value, names, n, seen, depth);
                let out = JsVal::Obj { id, entries };
                proof {
                    lemma_container_trees(out);
                }
                out
            },
        }
    } else {
        let (list, n) = ask_elements(ask, value, class);
        if class == JsClass::MapObject {
            let pairs = js_read_pairs(ask, list, n / 2, seen, depth);
            let out = JsVal::JsMap { id, pairs };
            proof {
                lemma_container_trees(out);
            }
            out
        } else {
            let items = js_read_items(ask, list, n, seen, depth);
            let out = if class == JsClass::SetObject {
                JsVal::JsSet { id, items }
            } else {
                JsVal::Array { id, items }
            };
            proof {
                lemma_container_trees(out);
            }
            out
        }
    }
}

/// Reads what stands inside a container.
fn js_read_child<V: Copy, F: Fn(JsAsk<V>) -> JsTold<V>>(
    ask: &F,
    value: Option<V>,
    seen: &mut JsSeen<V>,
    depth: u32,
) -> (out: JsVal)
    requires
        js_askable(*ask),
        old(seen).wf(),
        depth < MAX_MARSHAL_DEPTH,
    ensures
        final(seen).wf(),
        numbered(out.tree(), old(seen)@.len(), final(seen)@.len(), depth as nat + 1),
        forall|w: JsWorld<V>|
            #![trigger js_models(*ask, w), old(seen).agrees(w)]
            js_models(*ask, w) && old(seen).agrees(w) ==> final(seen).agrees(w) && (
            out.tree(),
            final(seen)@,
            ) == js_child(w, value, old(seen)@, depth as nat),
    decreases MAX_MARSHAL_DEPTH - depth, 0nat,
{
    match value {
        None => JsVal::Undefined,
        Some(v) => js_to_jsval_d(ask, v, seen, depth + 1),
    }
}

/// Reads the first `n` elements of a list.
fn js_read_items<V: Copy, F: Fn(JsAsk<V>) -> JsTold<V>>(
    ask: &F,
    list: V,
    n: u32,
    seen: &mut JsSeen<V>,
    depth: u32,
) -> (items: Vec<JsVal>)
    requires
        js_askable(*ask),
        old(seen).wf(),
        depth < MAX_MARSHAL_DEPTH,
    ensures
        final(seen).wf(),
        all_numbered(trees(items@), old(seen)@.len(), final(seen)@.len(), depth as nat + 1),
        forall|w: JsWorld<V>|
            #![trigger js_models(*ask, w), old(seen).agrees(w)]
            js_models(*ask, w) && old(seen).agrees(w) ==> final(seen).agrees(w) && (
            trees(items@),
            final(seen)@,
            ) == js_items(w, list, n as nat, old(seen)@, depth as nat),
    decreases MAX_MARSHAL_DEPTH - depth, 1nat,
{
    let mut items: Vec<JsVal> = Vec::new();
    let mut i: u32 = 0;
    assert(trees(items@) =~= seq![]);
    while i < n
        invariant
            js_askable(*ask),
            seen.wf(),
            depth < MAX_MARSHAL_DEPTH,
            i <= n,
            all_numbered(trees(items@), old(seen)@.len(), seen@.len(), depth as nat + 1),
            forall|w: JsWorld<V>|
                #![trigger js_models(*ask, w), old(seen).agrees(w)]
                js_models(*ask, w) && old(seen).agrees(w) ==> seen.agrees(w) && (
                trees(items@),
                seen@,
                ) == js_items(w, list, i as nat, old(seen)@, depth as nat),
        decreases n - i,
    {
        let ghost before = items@;
        let ghost mid = seen@.len();
        let el = ask_item(ask, list, i);
        let item = js_read_child(ask, el, seen, depth);
        items.push(item);
        i = i + 1;
        assert(trees(items@) =~= trees(before).push(item.tree()));
        proof {
            lemma_all_numbered_push(
                trees(before),
                item.tree(),
                old(seen)@.len(),
                mid,
                seen@.len(),
                depth as nat + 1,
            );
        }
    }
    items
}

/// Reads the first `n` pairs of a list in which keys and values alternate.
fn js_read_pairs<V: Copy, F: Fn(JsAsk<V>) -> JsTold<V>>(
    ask: &F,
    list: V,
    n: u32,
    seen: &mut JsSeen<V>,
    depth: u32,
) -> (pairs: Vec<(JsVal, JsVal)>)
    requires
        js_askable(*ask),
        old(seen).wf(),
        depth < MAX_MARSHAL_DEPTH,
        n <= u32::MAX / 2,
    ensures
        final(seen).wf(),
        pairs_numbered(pair_trees(pairs@), old(seen)@.len(), final(seen)@.len(), depth as nat + 1),
        forall|w: JsWorld<V>|
            #![trigger js_models(*ask, w), old(seen).agrees(w)]
            js_models(*ask, w) && old(seen).agrees(w) ==> final(seen).agrees(w) && (
            pair_trees(pairs@),
            final(seen)@,
            ) == js_pairs(w, list, n as nat, old(seen)@, depth as nat),
    decreases MAX_MARSHAL_DEPTH - depth, 1nat,
{
    let mut pairs: Vec<(JsVal, JsVal)> = Vec::new();
    let mut i: u32 = 0;
    assert(pair_trees(pairs@) =~= seq![]);
    while i < n
        invariant
            js_askable(*ask),
            seen.wf(),
            depth < MAX_MARSHAL_DEPTH,
            n <= u32::MAX / 2,
            i <= n,
            pairs_numbered(pair_trees(pairs@), old(seen)@.len(), seen@.len(), depth as nat + 1),
            forall|w: JsWorld<V>|
                #![trigger js_models(*ask, w), old(seen).agrees(w)]
                js_models(*ask, w) && old(seen).agrees(w) ==> seen.agrees(w) && (
                pair_trees(pairs@),
                seen@,
                ) == js_pairs(w, list, i as nat, old(seen)@, depth as nat),
        decreases n - i,
    {
        let ghost before = pairs@;
        let ghost mid = seen@.len();
        let k = ask_item(ask, list, 2 * i);
        let v = ask_item(ask, list, 2 * i + 1);
        let key = js_read_child(ask, k, seen, depth);
        let ghost end = seen@.len();
        let val = js_read_child(ask, v, seen, depth);
        pairs.push((key, val));
        i = i + 1;
        assert(pair_trees(pairs@) =~= pair_trees(before).push((key.tree(), val.tree())));
        proof {
            lemma_pairs_numbered_push(
                pair_trees(before),
                (key.tree(), val.tree()),
                old(seen)@.len(),
                mid,
                end,
                seen@.len(),
                depth as nat + 1,
            );
        }
    }
    pairs
}

/// Reads the entries under the first `n` names of an object.
fn js_read_entries<V: Copy, F: Fn(JsAsk<V>) -> JsTold<V>>(
    ask: &F,
    obj: V,
    names: V,
    n: u32,
    seen: &mut JsSeen<V>,
    depth: u32,
) -> (entries: Vec<(String, JsVal)>)
    requires
        js_askable(*ask),
        old(seen).wf(),
        depth < MAX_MARSHAL_DEPTH,
    ensures
        final(seen).wf(),
        entries_numbered(entry_trees(entries@), old(seen)@.len(), final(seen)@.len(), depth as nat + 1),
        forall|w: JsWorld<V>|
            #![trigger js_models(*ask, w), old(seen).agrees(w)]
            js_models(*ask, w) && old(seen).agrees(w) ==> final(seen).agrees(w) && (
            entry_trees(entries@),
            final(seen)@,
            ) == js_entries(w, obj, names, n as nat, old(seen)@, depth as nat),
    decreases MAX_MARSHAL_DEPTH - depth, 1nat,
{
    let mut entries: Vec<(String, JsVal)> = Vec::new();
    let mut i: u32 = 0;
    assert(entry_trees(entries@) =~= seq![]);
    while i < n
        invariant
            js_askable(*ask),
            seen.wf(),
            depth < MAX_MARSHAL_DEPTH,
            i <= n,
            entries_numbered(entry_trees(entries@), old(seen)@.len(), seen@.len(), depth as nat + 1),
            forall|w: JsWorld<V>|
                #![trigger js_models(*ask, w), old(seen).agrees(w)]
                js_models(*ask, w) && old(seen).agrees(w) ==> seen.agrees(w) && (
                entry_trees(entries@),
                seen@,
                ) == js_entries(w, obj, names, i as nat, old(seen)@, depth as nat),
        decreases n - i,
    {
        let ghost before = entries@;
        let ghost mid = seen@.len();
        if let Some(key) = ask_item(ask, names, i) {
            let text = ask_text(ask, key);
            let v = ask_get(ask, obj, key);
            let val = js_read_child(ask, v, seen, depth);
            entries.push((text, val));
            assert(entry_trees(entries@) =~= entry_trees(before).push((text@, val.tree())));
            proof {
                lemma_entries_numbered_push(
                    entry_trees(before),
                    (text@, val.tree()),
                    old(seen)@.len(),
                    mid,
                    seen@.len(),
                    depth as nat + 1,
                );
            }
        }
        i = i + 1;
    }
    entries
}

/// Whatever else an object says of itself, it crosses by the first of these kinds
/// that it is of: a date, bytes that a view looks at, bytes of a buffer of its own
/// or a shared one, a map, a set, an array. It crosses as a plain object if it is
/// of no such kind and cannot be called; whatever is left crosses as text. What is
/// undefined, null, a boolean or a number of some kind is nothing else.
pub proof fn law_class_goes_by_the_predicates(t: JsTests)
    ensures
        t.undefined <==> class_of(t) is Undefined,
        !t.undefined && t.null <==> class_of(t) is Null,
        !t.undefined && !t.null && t.boolean <==> class_of(t) is Bool,
        !t.undefined && !t.null && !t.boolean && t.int32 <==> class_of(t) is Int,
        !t.undefined && !t.null && !t.boolean && !t.int32 && t.number <==> class_of(t) is Num,
        !t.undefined && !t.null && !t.boolean && !t.int32 && !t.number && t.big_int <==> class_of(
            t,
        ) is BigInt,
        !t.undefined && !t.null && !t.boolean && !t.int32 && !t.number && !t.big_int ==> {
            let class = class_of(t);
            &&& t.date <==> class is Date
            &&& !t.date && t.array_buffer_view <==> class is View
            &&& !t.date && !t.array_buffer_view && t.array_buffer <==> class is Buffer
            &&& !t.date && !t.array_buffer_view && !t.array_buffer && t.shared_array_buffer
                <==> class is SharedBuffer
            &&& !t.date && !t.array_buffer_view && !t.array_buffer && !t.shared_array_buffer ==> {
                &&& t.map <==> class is MapObject
                &&& !t.map && t.set <==> class is SetObject
                &&& !t.map && !t.set && t.array <==> class is Array
                &&& !t.map && !t.set && !t.array && t.object && !t.function <==> class is Object
                &&& !t.map && !t.set && !t.array && (!t.object || t.function) <==> class is Text
            }
        },
{
}

/// A value without identity crosses by what the engine says it is, with what the
/// engine says it holds, however deep it stands; it is never referred to.
pub proof fn law_primitives_cross<V>(w: JsWorld<V>, v: V, seen: Seq<V>, depth: nat)
    ensures
        ({
            let t = (w.tests)(v);
            let (tree, after) = js_value(w, v, seen, depth);
            &&& t.undefined ==> tree is Undefined
            &&& !t.undefined ==> {
                &&& t.null ==> tree is Null
                &&& !t.null && t.boolean ==> tree == JsTree::Bool((w.boolean)(v))
                &&& !t.null && !t.boolean && t.int32 ==> tree == JsTree::Int((w.integer)(v))
                &&& !t.null && !t.boolean && !t.int32 && t.number ==> tree == JsTree::Num(
                    (w.number)(v),
                )
                &&& !t.null && !t.boolean && !t.int32 && !t.number && t.big_int ==> (
                tree matches JsTree::BigInt { negative, words } && (negative, words) == (w.big_int)(
                    v,
                ))
                &&& !t.null && !t.boolean && !t.int32 && !t.number && !t.big_int && t.date
                    ==> tree == JsTree::Date((w.date)(v))
                &&& !t.null && !t.boolean && !t.int32 && !t.number && !t.big_int && !t.date
                    && !t.array_buffer_view && !t.array_buffer && !t.shared_array_buffer && !t.map
                    && !t.set && !t.array && (!t.object || t.function) ==> tree == JsTree::Str(
                    (w.text)(v),
                )
            }
            &&& t.undefined || t.null || t.boolean || t.int32 || t.number || t.big_int || t.date
                ==> after == seen
        }),
{
}

/// An object counts as met before just if it stands among those met: with the same
/// hash, and the same object by identity. It is known by the first place where it
/// stands.
pub proof fn law_met_objects_are_found<V>(w: JsWorld<V>, seen: Seq<V>, v: V, j: nat)
    ensures
        js_find(w, seen, v) == Some(j) <==> j < seen.len() && (w.hash)(seen[j as int]) == (w.hash)(v)
            && (w.same)(seen[j as int], v) && forall|i: int|
            0 <= i < j ==> !((w.hash)(#[trigger] seen[i]) == (w.hash)(v) && (w.same)(seen[i], v)),
        js_find(w, seen, v) is None <==> forall|i: int|
            0 <= i < seen.len() ==> !((w.hash)(#[trigger] seen[i]) == (w.hash)(v) && (w.same)(
                seen[i],
                v,
            )),
{
    lemma_js_first_is_first(w, seen, v, 0);
    lemma_js_first_bound(w, seen, v, 0);
    let first = js_first(w, seen, v, 0);
    if j < seen.len() && js_is_at(w, seen, v, j as int) {
        if forall|i: int|
            0 <= i < j ==> !((w.hash)(#[trigger] seen[i]) == (w.hash)(v) && (w.same)(seen[i], v)) {
            assert forall|i: int| 0 <= i < j implies !js_is_at(w, seen, v, i) by {
                assert(!((w.hash)(seen[i]) == (w.hash)(v) && (w.same)(seen[i], v)));
            }
            lemma_js_first_skips(w, seen, v, 0, j as int);
        }
    }
    assert forall|i: int| 0 <= i < first && i < seen.len() implies !((w.hash)(#[trigger] seen[i])
        == (w.hash)(v) && (w.same)(seen[i], v)) by {
        assert(!js_is_at(w, seen, v, i));
    }
    if first < seen.len() {
        assert(js_is_at(w, seen, v, first));
    }
}

proof fn lemma_js_first_is_first<V>(w: JsWorld<V>, seen: Seq<V>, v: V, from: int)
    requires
        0 <= from <= seen.len(),
    ensures
        from <= js_first(w, seen, v, from) <= seen.len(),
        forall|i: int| from <= i < js_first(w, seen, v, from) ==> !#[trigger] js_is_at(w, seen, v, i),
        js_first(w, seen, v, from) < seen.len() ==> js_is_at(w, seen, v, js_first(w, seen, v, from)),
    decreases seen.len() - from,
{
    if from < seen.len() && !js_is_at(w, seen, v, from) {
        lemma_js_first_is_first(w, seen, v, from + 1);
    }
}

/// Binary data crosses as bytes, whole, however deep it stands: those that a view
/// looks at, or those of a buffer, be it shared or not. It gets the next id, and is
/// a reference to that id wherever it comes up again.
pub proof fn law_binary_crosses_as_bytes<V>(w: JsWorld<V>, v: V, seen: Seq<V>, depth: nat)
    requires
        ({
            let t = (w.tests)(v);
            &&& !t.undefined && !t.null && !t.boolean && !t.int32 && !t.number && !t.big_int
            &&& !t.date
            &&& t.array_buffer_view || t.array_buffer || t.shared_array_buffer
        }),
    ensures
        ({
            let t = (w.tests)(v);
            let bytes = if t.array_buffer_view {
                (w.bytes)(v, JsClass::View)
            } else if t.array_buffer {
                (w.bytes)(v, JsClass::Buffer)
            } else {
                (w.bytes)(v, JsClass::SharedBuffer)
            };
            &&& js_find(w, seen, v) is None ==> js_value(w, v, seen, depth) == (
                JsTree::Bytes { id: Some(seen.len()), bytes },
                seen.push(v),
            )
            &&& js_find(w, seen, v) matches Some(j) ==> js_value(w, v, seen, depth) == (
                JsTree::Ref(j),
                seen,
            )
            &&& js_tree(w, v) == (JsTree::Bytes { id: Some(0), bytes })
        }),
{
}

/// An object that holds others crosses as what it is, under the next id, with what
/// it holds one level deeper: a map's keys and values in pairs, the elements of a
/// set or an array, or a plain object's properties by name. It is a reference
/// wherever it comes up again. Too deep, or if its names cannot be listed, it is cut
/// off to its text, and takes no id.
pub proof fn law_containers_cross<V>(w: JsWorld<V>, v: V, seen: Seq<V>, depth: nat)
    requires
        ({
            let t = (w.tests)(v);
            &&& !t.undefined && !t.null && !t.boolean && !t.int32 && !t.number && !t.big_int
            &&& !t.date && !t.array_buffer_view && !t.array_buffer && !t.shared_array_buffer
            &&& t.map || t.set || t.array || (t.object && !t.function)
        }),
    ensures
        ({
            let t = (w.tests)(v);
            let (tree, after) = js_value(w, v, seen, depth);
            let opened = seen.push(v);
            &&& js_find(w, seen, v) matches Some(j) ==> tree == JsTree::Ref(j) && after == seen
            &&& js_find(w, seen, v) is None && depth >= MAX_MARSHAL_DEPTH ==> tree == JsTree::Str(
                (w.text)(v),
            ) && after == seen
            &&& js_find(w, seen, v) is None && depth < MAX_MARSHAL_DEPTH ==> {
                &&& t.map ==> {
                    let (list, n) = (w.elements)(v, JsClass::MapObject);
                    let (pairs, end) = js_pairs(w, list, (n / 2) as nat, opened, depth);
                    tree == (JsTree::JsMap { id: seen.len(), pairs }) && after == end
                }
                &&& !t.map && t.set ==> {
                    let (list, n) = (w.elements)(v, JsClass::SetObject);
                    let (items, end) = js_items(w, list, n as nat, opened, depth);
                    tree == (JsTree::JsSet { id: seen.len(), items }) && after == end
                }
                &&& !t.map && !t.set && t.array ==> {
                    let (list, n) = (w.elements)(v, JsClass::Array);
                    let (items, end) = js_items(w, list, n as nat, opened, depth);
                    tree == (JsTree::Array { id: seen.len(), items }) && after == end
                }
                &&& !t.map && !t.set && !t.array ==> match (w.names)(v) {
                    Some((names, n)) => {
                        let (entries, end) = js_entries(w, v, names, n as nat, opened, depth);
                        tree == (JsTree::Obj { id: seen.len(), entries }) && after == end
                    },
                    None => tree == JsTree::Str((w.text)(v)) && after == seen,
                }
            }
        }),
{
    assert(seen.push(v).drop_last() =~= seen);
}

/// What a list holds crosses in order, each element one level deeper than the list's
/// owner and with all that was met before it; what is missing is undefined.
pub proof fn law_elements_cross_in_order<V>(
    w: JsWorld<V>,
    list: V,
    n: nat,
    seen: Seq<V>,
    depth: nat,
    i: nat,
)
    requires
        i < n,
        depth < MAX_MARSHAL_DEPTH,
    ensures
        ({
            let items = js_items(w, list, n, seen, depth).0;
            let before = js_items(w, list, i, seen, depth).1;
            &&& items.len() == n
            &&& items[i as int] == (match (w.item)(list, i as u32) {
                Some(element) => js_value(w, element, before, depth + 1).0,
                None => JsTree::Undefined,
            })
            &&& js_items(w, list, i + 1, seen, depth).1 == (match (w.item)(list, i as u32) {
                Some(element) => js_value(w, element, before, depth + 1).1,
                None => before,
            })
            &&& js_items(w, list, 0, seen, depth).1 == seen
        }),
    decreases n,
{
    lemma_js_items_len(w, list, n, seen, depth);
    lemma_js_items_len(w, list, (n - 1) as nat, seen, depth);
    if i < n - 1 {
        law_elements_cross_in_order(w, list, (n - 1) as nat, seen, depth, i);
    }
    let before = js_items(w, list, i, seen, depth).1;
    lemma_js_child(w, (w.item)(list, i as u32), before, depth);
}

/// What stands in an object is one level deeper than the object.
proof fn lemma_js_child<V>(w: JsWorld<V>, v: Option<V>, seen: Seq<V>, depth: nat)
    requires
        depth < MAX_MARSHAL_DEPTH,
    ensures
        js_child(w, v, seen, depth) == (match v {
            Some(x) => js_value(w, x, seen, depth + 1),
            None => (JsTree::Undefined, seen),
        }),
{
}

proof fn lemma_js_items_len<V>(w: JsWorld<V>, list: V, n: nat, seen: Seq<V>, depth: nat)
    ensures
        js_items(w, list, n, seen, depth).0.len() == n,
    decreases n,
{
    if n > 0 {
        lemma_js_items_len(w, list, (n - 1) as nat, seen, depth);
    }
}

/// The keys and values of a map cross in pairs and in order: each key before its
/// value, and both one level deeper than the map.
pub proof fn law_pairs_cross_in_order<V>(
    w: JsWorld<V>,
    list: V,
    n: nat,
    seen: Seq<V>,
    depth: nat,
    i: nat,
)
    requires
        i < n,
        depth < MAX_MARSHAL_DEPTH,
    ensures
        ({
            let pairs = js_pairs(w, list, n, seen, depth).0;
            let before = js_pairs(w, list, i, seen, depth).1;
            let key = match (w.item)(list, (2 * i) as u32) {
                Some(element) => js_value(w, element, before, depth + 1),
                None => (JsTree::Undefined, before),
            };
            let val = match (w.item)(list, (2 * i + 1) as u32) {
                Some(element) => js_value(w, element, key.1, depth + 1),
                None => (JsTree::Undefined, key.1),
            };
            &&& pairs.len() == n
            &&& pairs[i as int] == (key.0, val.0)
            &&& js_pairs(w, list, i + 1, seen, depth).1 == val.1
            &&& js_pairs(w, list, 0, seen, depth).1 == seen
        }),
    decreases n,
{
    lemma_js_pairs_len(w, list, n, seen, depth);
    lemma_js_pairs_len(w, list, (n - 1) as nat, seen, depth);
    if i < n - 1 {
        law_pairs_cross_in_order(w, list, (n - 1) as nat, seen, depth, i);
    }
    let before = js_pairs(w, list, i, seen, depth).1;
    let k = (w.item)(list, (2 * i) as u32);
    lemma_js_child(w, k, before, depth);
    let mid = js_child(w, k, before, depth).1;
    lemma_js_child(w, (w.item)(list, (2 * i + 1) as u32), mid, depth);
}

proof fn lemma_js_pairs_len<V>(w: JsWorld<V>, list: V, n: nat, seen: Seq<V>, depth: nat)
    ensures
        js_pairs(w, list, n, seen, depth).0.len() == n,
    decreases n,
{
    if n > 0 {
        lemma_js_pairs_len(w, list, (n - 1) as nat, seen, depth);
    }
}

/// The properties of an object cross in the order of its names, each under its name
/// and with its own value, one level deeper than the object. A name that cannot be
/// read is left out, and nothing else is; a value that cannot be read is undefined.
pub proof fn law_properties_cross_in_order<V>(
    w: JsWorld<V>,
    obj: V,
    names: V,
    n: nat,
    seen: Seq<V>,
    depth: nat,
)
    requires
        depth < MAX_MARSHAL_DEPTH,
    ensures
        ({
            let (before, mid) = js_entries(w, obj, names, n, seen, depth);
            let (entries, after) = js_entries(w, obj, names, n + 1, seen, depth);
            match (w.item)(names, n as u32) {
                None => entries == before && after == mid,
                Some(key) => {
                    let (val, end) = match (w.get)(obj, key) {
                        Some(x) => js_value(w, x, mid, depth + 1),
                        None => (JsTree::Undefined, mid),
                    };
                    &&& entries.len() == before.len() + 1
                    &&& entries.drop_last() == before
                    &&& entries.last() == ((w.text)(key), val)
                    &&& after == end
                },
            }
        }),
        js_entries(w, obj, names, 0, seen, depth) == (Seq::<(Seq<char>, JsTree)>::empty(), seen),
{
    let (before, mid) = js_entries(w, obj, names, n, seen, depth);
    let (entries, after) = js_entries(w, obj, names, n + 1, seen, depth);
    if let Some(key) = (w.item)(names, n as u32) {
        lemma_js_child(w, (w.get)(obj, key), mid, depth);
        assert(entries.drop_last() =~= before);
    }
}

} // verus!
