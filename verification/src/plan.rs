//! Building a value in an engine: which objects are made and in which order they
//! are filled.
//!
//! The outcome is a list of steps for the engine. A step that makes a value is
//! referred to by its place in the list. A container is made before anything
//! that stands in it, so that what stands in it can refer back to it.

use std::collections::HashMap;
use vstd::prelude::*;
use vstd::utf8::encode_utf8;

use crate::bigint::hex_of;
use crate::bigint::words_to_hex;
use crate::number::finite;
use crate::number::is_finite;
use crate::value::entry_trees;
use crate::value::lemma_container_trees;
use crate::value::pair_trees;
use crate::value::trees;
use crate::value::JsTree;
use crate::value::JsVal;

verus! {

/// Where a value is built.
#[derive(Debug, Clone, Copy, PartialEq, Eq, Structural)]
pub enum Side {
    /// In JavaScript. The engine makes no string of more UTF-8 bytes than this.
    JavaScript { max_string: usize },
    Ruby,
}

/// One step of a build.
#[allow(inconsistent_fields)]
#[derive(Debug, PartialEq, Eq)]
pub enum BuildOp {
    /// Make a value that holds no others.
    Make(JsVal),
    /// Make a Ruby integer from its sign and its magnitude in hexadecimal.
    MakeInteger { negative: bool, hex: String },
    /// Make an array that will have so many elements.
    NewArray(usize),
    NewObject,
    NewMap,
    NewSet,
    SetIndex { array: usize, index: usize, value: usize },
    SetKey { object: usize, key: String, value: usize },
    MapSet { map: usize, key: usize, value: usize },
    SetAdd { set: usize, value: usize },
}

/// What a step says.
#[allow(inconsistent_fields)]
pub enum Step {
    Make(JsTree),
    MakeInteger { negative: bool, hex: Seq<char> },
    NewArray(nat),
    NewObject,
    NewMap,
    NewSet,
    SetIndex { array: nat, index: nat, value: nat },
    SetKey { object: nat, key: Seq<char>, value: nat },
    MapSet { map: nat, key: nat, value: nat },
    SetAdd { set: nat, value: nat },
}

impl BuildOp {
    pub open spec fn step(self) -> Step {
        match self {
            BuildOp::Make(val) => Step::Make(val.tree()),
            BuildOp::MakeInteger { negative, hex } => Step::MakeInteger { negative, hex: hex@ },
            BuildOp::NewArray(n) => Step::NewArray(n as nat),
            BuildOp::NewObject => Step::NewObject,
            BuildOp::NewMap => Step::NewMap,
            BuildOp::NewSet => Step::NewSet,
            BuildOp::SetIndex { array, index, value } => Step::SetIndex {
                array: array as nat,
                index: index as nat,
                value: value as nat,
            },
            BuildOp::SetKey { object, key, value } => Step::SetKey {
                object: object as nat,
                key: key@,
                value: value as nat,
            },
            BuildOp::MapSet { map, key, value } => Step::MapSet {
                map: map as nat,
                key: key as nat,
                value: value as nat,
            },
            BuildOp::SetAdd { set, value } => Step::SetAdd {
                set: set as nat,
                value: value as nat,
            },
        }
    }
}

/// What some steps say.
pub open spec fn steps(ops: Seq<BuildOp>) -> Seq<Step> {
    Seq::new(ops.len(), |i: int| ops[i].step())
}

/// A build under way: the steps so far, and where the container with a given id
/// was made.
pub struct Plan {
    pub steps: Seq<Step>,
    pub built: Map<nat, nat>,
}

impl Plan {
    /// With one more step.
    pub open spec fn then_do(self, step: Step) -> Plan {
        Plan { steps: self.steps.push(step), built: self.built }
    }

    /// With one more step that makes the value of this id.
    pub open spec fn make(self, step: Step, id: nat) -> Plan {
        Plan { steps: self.steps.push(step), built: self.built.insert(id, self.steps.len()) }
    }
}

/// The plan once a value has been built, and the step that made the value;
/// nothing if the value cannot be built.
pub type Planned = Option<(Plan, nat)>;

/// A value that needs a single step and has no id.
pub open spec fn plan_leaf(plan: Plan, step: Step) -> Planned {
    Some((plan.then_do(step), plan.steps.len()))
}

/// A string that the engine cannot make.
pub open spec fn too_long(side: Side, text: Seq<char>) -> bool {
    side matches Side::JavaScript { max_string } && encode_utf8(text).len() > max_string
}

/// What a reference to nothing is built as.
pub open spec fn nothing(side: Side) -> JsTree {
    match side {
        Side::JavaScript { .. } => JsTree::Undefined,
        Side::Ruby => JsTree::Null,
    }
}

/// Builds a value. In Ruby, undefined is nil, and a date that is no date cannot
/// be built.
pub open spec fn plan_value(side: Side, t: JsTree, plan: Plan) -> Planned
    decreases t,
{
    match t {
        JsTree::Undefined => plan_leaf(plan, Step::Make(nothing(side))),
        JsTree::Str(text) => plan_leaf(
            plan,
            Step::Make(
                if too_long(side, text) {
                    nothing(side)
                } else {
                    t
                },
            ),
        ),
        JsTree::BigInt { negative, words } => plan_leaf(
            plan,
            if side is Ruby {
                Step::MakeInteger { negative, hex: hex_of(words) }
            } else {
                Step::Make(t)
            },
        ),
        JsTree::Date(ms) => if side is Ruby && !finite(ms) {
            None
        } else {
            plan_leaf(plan, Step::Make(t))
        },
        JsTree::Bytes { id, .. } => match id {
            Some(k) => Some((plan.make(Step::Make(t), k), plan.steps.len())),
            None => plan_leaf(plan, Step::Make(t)),
        },
        JsTree::Array { id, items } => plan_filled(
            plan_items(
                side,
                items,
                plan.steps.len(),
                plan.make(Step::NewArray(items.len()), id),
            ),
            plan.steps.len(),
        ),
        JsTree::Obj { id, entries } => plan_filled(
            plan_entries(side, entries, plan.steps.len(), plan.make(Step::NewObject, id)),
            plan.steps.len(),
        ),
        JsTree::JsMap { id, pairs } => plan_filled(
            plan_pairs(side, pairs, plan.steps.len(), plan.make(Step::NewMap, id)),
            plan.steps.len(),
        ),
        JsTree::JsSet { id, items } => plan_filled(
            plan_members(side, items, plan.steps.len(), plan.make(Step::NewSet, id)),
            plan.steps.len(),
        ),
        JsTree::Ref(id) => if plan.built.contains_key(id) {
            Some((plan, plan.built[id]))
        } else {
            plan_leaf(plan, Step::Make(nothing(side)))
        },
        _ => plan_leaf(plan, Step::Make(t)),
    }
}

/// A container that was made at `at`, once it has been filled.
pub open spec fn plan_filled(plan: Option<Plan>, at: nat) -> Planned {
    match plan {
        Some(p) => Some((p, at)),
        None => None,
    }
}

/// Fills an array.
pub open spec fn plan_items(side: Side, items: Seq<JsTree>, at: nat, plan: Plan) -> Option<Plan>
    decreases items,
{
    if items.len() == 0 {
        Some(plan)
    } else {
        match plan_items(side, items.drop_last(), at, plan) {
            None => None,
            Some(mid) => match plan_value(side, items.last(), mid) {
                None => None,
                Some((p, value)) => Some(
                    p.then_do(
                        Step::SetIndex { array: at, index: (items.len() - 1) as nat, value },
                    ),
                ),
            },
        }
    }
}

/// Fills a set.
pub open spec fn plan_members(side: Side, items: Seq<JsTree>, at: nat, plan: Plan) -> Option<Plan>
    decreases items,
{
    if items.len() == 0 {
        Some(plan)
    } else {
        match plan_members(side, items.drop_last(), at, plan) {
            None => None,
            Some(mid) => match plan_value(side, items.last(), mid) {
                None => None,
                Some((p, value)) => Some(p.then_do(Step::SetAdd { set: at, value })),
            },
        }
    }
}

/// Fills an object. An entry whose key cannot be made is left out, and what
/// stands under it is not built.
pub open spec fn plan_entries(
    side: Side,
    entries: Seq<(Seq<char>, JsTree)>,
    at: nat,
    plan: Plan,
) -> Option<Plan>
    decreases entries,
{
    if entries.len() == 0 {
        Some(plan)
    } else {
        match plan_entries(side, entries.drop_last(), at, plan) {
            None => None,
            Some(mid) => if too_long(side, entries.last().0) {
                Some(mid)
            } else {
                match plan_value(side, entries.last().1, mid) {
                    None => None,
                    Some((p, value)) => Some(
                        p.then_do(Step::SetKey { object: at, key: entries.last().0, value }),
                    ),
                }
            },
        }
    }
}

/// Fills a map, each key before its value.
pub open spec fn plan_pairs(
    side: Side,
    pairs: Seq<(JsTree, JsTree)>,
    at: nat,
    plan: Plan,
) -> Option<Plan>
    decreases pairs,
{
    if pairs.len() == 0 {
        Some(plan)
    } else {
        match plan_pairs(side, pairs.drop_last(), at, plan) {
            None => None,
            Some(mid) => match plan_value(side, pairs.last().0, mid) {
                None => None,
                Some((p, key)) => match plan_value(side, pairs.last().1, p) {
                    None => None,
                    Some((q, value)) => Some(q.then_do(Step::MapSet { map: at, key, value })),
                },
            },
        }
    }
}

/// A plan with nothing in it.
pub open spec fn no_plan() -> Plan {
    Plan { steps: seq![], built: Map::empty() }
}

/// The steps that build a value, and the step that makes it.
pub open spec fn build_plan(side: Side, t: JsTree) -> Option<(Seq<Step>, nat)> {
    match plan_value(side, t, no_plan()) {
        Some((p, at)) => Some((p.steps, at)),
        None => None,
    }
}

/// A date that is none.
#[derive(Debug, Clone, Copy, PartialEq, Eq, Structural)]
pub struct InvalidDate;

struct Builder {
    side: Side,
    ops: Vec<BuildOp>,
    built: HashMap<usize, usize>,
}

impl Builder {
    spec fn plan(self) -> Plan {
        Plan {
            steps: steps(self.ops@),
            built: Map::new(
                |id: nat| id <= usize::MAX && self.built@.contains_key(id as usize),
                |id: nat| self.built@[id as usize] as nat,
            ),
        }
    }

    fn push(&mut self, op: BuildOp) -> (at: usize)
        ensures
            final(self).plan() == old(self).plan().then_do(op.step()),
            final(self).side == old(self).side,
            at == old(self).plan().steps.len(),
    {
        let at: usize = self.ops.len();
        self.ops.push(op);
        assert(self.plan().steps =~= old(self).plan().steps.push(op.step()));
        at
    }

    fn make(&mut self, op: BuildOp, id: usize) -> (at: usize)
        ensures
            final(self).plan() == old(self).plan().make(op.step(), id as nat),
            final(self).side == old(self).side,
            at == old(self).plan().steps.len(),
    {
        broadcast use vstd::std_specs::hash::group_hash_axioms;

        let at: usize = self.ops.len();
        self.ops.push(op);
        self.built.insert(id, at);
        assert(self.plan().steps =~= old(self).plan().steps.push(op.step()));
        assert(self.plan().built =~= old(self).plan().built.insert(id as nat, at as nat));
        at
    }

    fn find(&self, id: usize) -> (at: Option<usize>)
        ensures
            match at {
                Some(k) => self.plan().built.contains_key(id as nat) && k
                    == self.plan().built[id as nat],
                None => !self.plan().built.contains_key(id as nat),
            },
    {
        broadcast use vstd::std_specs::hash::group_hash_axioms;

        match self.built.get(&id) {
            Some(k) => Some(*k),
            None => None,
        }
    }

    fn is_too_long(&self, text: &String) -> (yes: bool)
        ensures
            yes == too_long(self.side, text@),
    {
        match self.side {
            Side::JavaScript { max_string } => text.as_str().as_bytes().len() > max_string,
            Side::Ruby => false,
        }
    }

    /// Makes what stands for nothing.
    fn nothing(&mut self) -> (at: usize)
        ensures
            final(self).plan() == old(self).plan().then_do(Step::Make(nothing(old(self).side))),
            final(self).side == old(self).side,
            at == old(self).plan().steps.len(),
    {
        match self.side {
            Side::JavaScript { .. } => self.push(BuildOp::Make(JsVal::Undefined)),
            Side::Ruby => self.push(BuildOp::Make(JsVal::Null)),
        }
    }

    /// Adds the steps that build a value, and returns the one that makes it.
    fn value(&mut self, val: JsVal) -> (out: Result<usize, InvalidDate>)
        ensures
            final(self).side == old(self).side,
            match plan_value(old(self).side, val.tree(), old(self).plan()) {
                Some((p, at)) => (out matches Ok(k) && k == at) && final(self).plan() == p,
                None => out is Err,
            },
        decreases val,
    {
        proof {
            lemma_container_trees(val);
        }
        match val {
            JsVal::Undefined => Ok(self.nothing()),
            JsVal::Str(text) => {
                if self.is_too_long(&text) {
                    Ok(self.nothing())
                } else {
                    Ok(self.push(BuildOp::Make(JsVal::Str(text))))
                }
            },
            JsVal::BigInt { negative, words } => match self.side {
                Side::Ruby => {
                    let hex = words_to_hex(&words);
                    Ok(self.push(BuildOp::MakeInteger { negative, hex }))
                },
                Side::JavaScript { .. } => Ok(
                    self.push(BuildOp::Make(JsVal::BigInt { negative, words })),
                ),
            },
            JsVal::Date(ms) => {
                if self.side == Side::Ruby && !is_finite(ms) {
                    return Err(InvalidDate);
                }
                Ok(self.push(BuildOp::Make(JsVal::Date(ms))))
            },
            JsVal::Bytes { id, bytes } => match id {
                Some(k) => Ok(self.make(BuildOp::Make(JsVal::Bytes { id, bytes }), k)),
                None => Ok(self.push(BuildOp::Make(JsVal::Bytes { id, bytes }))),
            },
            JsVal::Array { id, items } => {
                let at: usize = self.make(BuildOp::NewArray(items.len()), id);
                match self.fill_items(items, at) {
                    Ok(()) => Ok(at),
                    Err(e) => Err(e),
                }
            },
            JsVal::Obj { id, entries } => {
                let at: usize = self.make(BuildOp::NewObject, id);
                match self.fill_entries(entries, at) {
                    Ok(()) => Ok(at),
                    Err(e) => Err(e),
                }
            },
            JsVal::JsMap { id, pairs } => {
                let at: usize = self.make(BuildOp::NewMap, id);
                match self.fill_pairs(pairs, at) {
                    Ok(()) => Ok(at),
                    Err(e) => Err(e),
                }
            },
            JsVal::JsSet { id, items } => {
                let at: usize = self.make(BuildOp::NewSet, id);
                match self.fill_members(items, at) {
                    Ok(()) => Ok(at),
                    Err(e) => Err(e),
                }
            },
            JsVal::Ref(id) => match self.find(id) {
                Some(at) => Ok(at),
                None => Ok(self.nothing()),
            },
            leaf => Ok(self.push(BuildOp::Make(leaf))),
        }
    }

    /// Fills an array.
    fn fill_items(&mut self, items: Vec<JsVal>, at: usize) -> (out: Result<(), InvalidDate>)
        ensures
            final(self).side == old(self).side,
            match plan_items(old(self).side, trees(items@), at as nat, old(self).plan()) {
                Some(p) => out is Ok && final(self).plan() == p,
                None => out is Err,
            },
        decreases items@,
    {
        let ghost all = items@;
        let n: usize = items.len();
        let mut i: usize = 0;
        assert(trees(all.take(0)) =~= seq![]);
        for one in it: items
            invariant
                it.seq() == all,
                all == items@,
                n == all.len(),
                i == it.index(),
                self.side == old(self).side,
                plan_items(
                    old(self).side,
                    trees(all.take(i as int)),
                    at as nat,
                    old(self).plan(),
                ) == Some(self.plan()),
        {
            let ghost part = trees(all.take(i + 1));
            assert(part.drop_last() =~= trees(all.take(i as int)));
            assert(trees(all).take(i + 1) =~= part);
            match self.value(one) {
                Ok(value) => {
                    self.push(BuildOp::SetIndex { array: at, index: i, value });
                },
                Err(e) => {
                    proof {
                        lemma_plan_items_stop(old(self).side, trees(all), i + 1, at as nat, old(self).plan());
                    }
                    return Err(e);
                },
            }
            i = i + 1;
        }
        assert(all.take(all.len() as int) =~= all);
        Ok(())
    }

    /// Fills a set.
    fn fill_members(&mut self, items: Vec<JsVal>, at: usize) -> (out: Result<(), InvalidDate>)
        ensures
            final(self).side == old(self).side,
            match plan_members(old(self).side, trees(items@), at as nat, old(self).plan()) {
                Some(p) => out is Ok && final(self).plan() == p,
                None => out is Err,
            },
        decreases items@,
    {
        let ghost all = items@;
        assert(trees(all.take(0)) =~= seq![]);
        for one in it: items
            invariant
                it.seq() == all,
                all == items@,
                self.side == old(self).side,
                plan_members(
                    old(self).side,
                    trees(all.take(it.index())),
                    at as nat,
                    old(self).plan(),
                ) == Some(self.plan()),
        {
            let ghost part = trees(all.take(it.index() + 1));
            assert(part.drop_last() =~= trees(all.take(it.index())));
            assert(trees(all).take(it.index() + 1) =~= part);
            match self.value(one) {
                Ok(value) => {
                    self.push(BuildOp::SetAdd { set: at, value });
                },
                Err(e) => {
                    proof {
                        lemma_plan_members_stop(old(self).side, trees(all), it.index() + 1, at as nat, old(self).plan());
                    }
                    return Err(e);
                },
            }
        }
        assert(all.take(all.len() as int) =~= all);
        Ok(())
    }

    /// Fills an object.
    fn fill_entries(&mut self, entries: Vec<(String, JsVal)>, at: usize) -> (out: Result<(), InvalidDate>)
        ensures
            final(self).side == old(self).side,
            match plan_entries(old(self).side, entry_trees(entries@), at as nat, old(self).plan()) {
                Some(p) => out is Ok && final(self).plan() == p,
                None => out is Err,
            },
        decreases entries@,
    {
        let ghost all = entries@;
        assert(entry_trees(all.take(0)) =~= seq![]);
        for one in it: entries
            invariant
                it.seq() == all,
                all == entries@,
                self.side == old(self).side,
                plan_entries(
                    old(self).side,
                    entry_trees(all.take(it.index())),
                    at as nat,
                    old(self).plan(),
                ) == Some(self.plan()),
        {
            let ghost part = entry_trees(all.take(it.index() + 1));
            assert(part.drop_last() =~= entry_trees(all.take(it.index())));
            assert(entry_trees(all).take(it.index() + 1) =~= part);
            let (key, val) = one;
            if !self.is_too_long(&key) {
                match self.value(val) {
                    Ok(value) => {
                        self.push(BuildOp::SetKey { object: at, key, value });
                    },
                    Err(e) => {
                        proof {
                            lemma_plan_entries_stop(old(self).side, entry_trees(all), it.index() + 1, at as nat, old(self).plan());
                        }
                        return Err(e);
                    },
                }
            }
        }
        assert(all.take(all.len() as int) =~= all);
        Ok(())
    }

    /// Fills a map, each key before its value.
    fn fill_pairs(&mut self, pairs: Vec<(JsVal, JsVal)>, at: usize) -> (out: Result<(), InvalidDate>)
        ensures
            final(self).side == old(self).side,
            match plan_pairs(old(self).side, pair_trees(pairs@), at as nat, old(self).plan()) {
                Some(p) => out is Ok && final(self).plan() == p,
                None => out is Err,
            },
        decreases pairs@,
    {
        let ghost all = pairs@;
        assert(pair_trees(all.take(0)) =~= seq![]);
        for one in it: pairs
            invariant
                it.seq() == all,
                all == pairs@,
                self.side == old(self).side,
                plan_pairs(
                    old(self).side,
                    pair_trees(all.take(it.index())),
                    at as nat,
                    old(self).plan(),
                ) == Some(self.plan()),
        {
            let ghost part = pair_trees(all.take(it.index() + 1));
            assert(part.drop_last() =~= pair_trees(all.take(it.index())));
            assert(pair_trees(all).take(it.index() + 1) =~= part);
            let (k, v) = one;
            let key: usize = match self.value(k) {
                Ok(key) => key,
                Err(e) => {
                    proof {
                        lemma_plan_pairs_stop(old(self).side, pair_trees(all), it.index() + 1, at as nat, old(self).plan());
                    }
                    return Err(e);
                },
            };
            match self.value(v) {
                Ok(value) => {
                    self.push(BuildOp::MapSet { map: at, key, value });
                },
                Err(e) => {
                    proof {
                        lemma_plan_pairs_stop(old(self).side, pair_trees(all), it.index() + 1, at as nat, old(self).plan());
                    }
                    return Err(e);
                },
            }
        }
        assert(all.take(all.len() as int) =~= all);
        Ok(())
    }
}

/// A container with something in it that cannot be built cannot be built.
proof fn lemma_plan_items_stop(side: Side, items: Seq<JsTree>, n: int, at: nat, plan: Plan)
    requires
        0 <= n <= items.len(),
        plan_items(side, items.take(n), at, plan) is None,
    ensures
        plan_items(side, items, at, plan) is None,
    decreases items.len() - n,
{
    if n == items.len() {
        assert(items.take(n) =~= items);
    } else {
        assert(items.take(n + 1).drop_last() =~= items.take(n));
        lemma_plan_items_stop(side, items, n + 1, at, plan);
    }
}

/// A container with something in it that cannot be built cannot be built.
proof fn lemma_plan_members_stop(side: Side, items: Seq<JsTree>, n: int, at: nat, plan: Plan)
    requires
        0 <= n <= items.len(),
        plan_members(side, items.take(n), at, plan) is None,
    ensures
        plan_members(side, items, at, plan) is None,
    decreases items.len() - n,
{
    if n == items.len() {
        assert(items.take(n) =~= items);
    } else {
        assert(items.take(n + 1).drop_last() =~= items.take(n));
        lemma_plan_members_stop(side, items, n + 1, at, plan);
    }
}

/// A container with something in it that cannot be built cannot be built.
proof fn lemma_plan_entries_stop(side: Side, items: Seq<(Seq<char>, JsTree)>, n: int, at: nat, plan: Plan)
    requires
        0 <= n <= items.len(),
        plan_entries(side, items.take(n), at, plan) is None,
    ensures
        plan_entries(side, items, at, plan) is None,
    decreases items.len() - n,
{
    if n == items.len() {
        assert(items.take(n) =~= items);
    } else {
        assert(items.take(n + 1).drop_last() =~= items.take(n));
        lemma_plan_entries_stop(side, items, n + 1, at, plan);
    }
}

/// A container with something in it that cannot be built cannot be built.
proof fn lemma_plan_pairs_stop(side: Side, items: Seq<(JsTree, JsTree)>, n: int, at: nat, plan: Plan)
    requires
        0 <= n <= items.len(),
        plan_pairs(side, items.take(n), at, plan) is None,
    ensures
        plan_pairs(side, items, at, plan) is None,
    decreases items.len() - n,
{
    if n == items.len() {
        assert(items.take(n) =~= items);
    } else {
        assert(items.take(n + 1).drop_last() =~= items.take(n));
        lemma_plan_pairs_stop(side, items, n + 1, at, plan);
    }
}

/// The steps of a build.
#[derive(Debug, PartialEq, Eq)]
pub struct Build {
    pub ops: Vec<BuildOp>,
    /// The step that makes the value.
    pub root: usize,
}

fn build(side: Side, val: JsVal) -> (out: Result<Build, InvalidDate>)
    ensures
        match build_plan(side, val.tree()) {
            Some((s, at)) => out matches Ok(b) && steps(b.ops@) == s && b.root == at,
            None => out is Err,
        },
{
    broadcast use vstd::std_specs::hash::group_hash_axioms;

    let mut builder = Builder { side, ops: Vec::new(), built: HashMap::new() };
    assert(builder.plan().steps =~= no_plan().steps);
    assert(builder.plan().built =~= no_plan().built);
    match builder.value(val) {
        Ok(root) => Ok(Build { ops: builder.ops, root }),
        Err(e) => Err(e),
    }
}

/// How a value is built in JavaScript. `max_string` is the longest string that
/// the engine makes, in UTF-8 bytes.
pub fn jsval_to_js(val: JsVal, max_string: usize) -> (out: Build)
    ensures
        build_plan(Side::JavaScript { max_string }, val.tree()) == Some(
            (steps(out.ops@), out.root as nat),
        ),
{
    proof {
        lemma_js_plans(Side::JavaScript { max_string }, val.tree(), no_plan());
    }
    match build(Side::JavaScript { max_string }, val) {
        Ok(b) => b,
        Err(_) => Build { ops: Vec::new(), root: 0 },
    }
}

/// How a value is built in Ruby. It cannot be if it holds a date that is none.
pub fn jsval_to_ruby(val: JsVal) -> (out: Result<Build, InvalidDate>)
    ensures
        match build_plan(Side::Ruby, val.tree()) {
            Some((s, at)) => out matches Ok(b) && steps(b.ops@) == s && b.root == at,
            None => out is Err,
        },
{
    build(Side::Ruby, val)
}

/// Every value can be built in JavaScript.
proof fn lemma_js_plans(side: Side, t: JsTree, plan: Plan)
    requires
        side is JavaScript,
    ensures
        plan_value(side, t, plan) is Some,
    decreases t,
{
    match t {
        JsTree::Array { id, items } => lemma_js_plans_items(
            side,
            items,
            plan.steps.len(),
            plan.make(Step::NewArray(items.len()), id),
        ),
        JsTree::JsSet { id, items } => lemma_js_plans_members(
            side,
            items,
            plan.steps.len(),
            plan.make(Step::NewSet, id),
        ),
        JsTree::Obj { id, entries } => lemma_js_plans_entries(
            side,
            entries,
            plan.steps.len(),
            plan.make(Step::NewObject, id),
        ),
        JsTree::JsMap { id, pairs } => lemma_js_plans_pairs(
            side,
            pairs,
            plan.steps.len(),
            plan.make(Step::NewMap, id),
        ),
        _ => {},
    }
}

proof fn lemma_js_plans_items(side: Side, items: Seq<JsTree>, at: nat, plan: Plan)
    requires
        side is JavaScript,
    ensures
        plan_items(side, items, at, plan) is Some,
    decreases items,
{
    if items.len() > 0 {
        lemma_js_plans_items(side, items.drop_last(), at, plan);
        let mid = plan_items(side, items.drop_last(), at, plan).unwrap();
        lemma_js_plans(side, items.last(), mid);
    }
}

proof fn lemma_js_plans_members(side: Side, items: Seq<JsTree>, at: nat, plan: Plan)
    requires
        side is JavaScript,
    ensures
        plan_members(side, items, at, plan) is Some,
    decreases items,
{
    if items.len() > 0 {
        lemma_js_plans_members(side, items.drop_last(), at, plan);
        let mid = plan_members(side, items.drop_last(), at, plan).unwrap();
        lemma_js_plans(side, items.last(), mid);
    }
}

proof fn lemma_js_plans_entries(side: Side, items: Seq<(Seq<char>, JsTree)>, at: nat, plan: Plan)
    requires
        side is JavaScript,
    ensures
        plan_entries(side, items, at, plan) is Some,
    decreases items,
{
    if items.len() > 0 {
        lemma_js_plans_entries(side, items.drop_last(), at, plan);
        let mid = plan_entries(side, items.drop_last(), at, plan).unwrap();
        lemma_js_plans(side, items.last().1, mid);
    }
}

proof fn lemma_js_plans_pairs(side: Side, items: Seq<(JsTree, JsTree)>, at: nat, plan: Plan)
    requires
        side is JavaScript,
    ensures
        plan_pairs(side, items, at, plan) is Some,
    decreases items,
{
    if items.len() > 0 {
        lemma_js_plans_pairs(side, items.drop_last(), at, plan);
        let mid = plan_pairs(side, items.drop_last(), at, plan).unwrap();
        lemma_js_plans(side, items.last().0, mid);
        lemma_js_plans(side, items.last().1, plan_value(side, items.last().0, mid).unwrap().0);
    }
}

/// A value that holds no others is built as what it is, in one step. The exceptions
/// are few: Ruby has nil for undefined, and integers of any size, which are made
/// from their sign and digits; the engine makes no text of more bytes than it can,
/// which is undefined then; and a date that is none cannot be built in Ruby.
pub proof fn law_plain_values_are_built_as_they_are(
    max_string: usize,
    plan: Plan,
    flag: bool,
    number: i64,
    bits: u64,
    negative: bool,
    words: Seq<u64>,
    text: Seq<char>,
    bytes: Seq<u8>,
    id: nat,
)
    ensures
        ({
            let js = Side::JavaScript { max_string };
            let rb = Side::Ruby;
            &&& makes(js, JsTree::Undefined, plan, Step::Make(JsTree::Undefined))
            &&& makes(rb, JsTree::Undefined, plan, Step::Make(JsTree::Null))
            &&& makes(js, JsTree::Null, plan, Step::Make(JsTree::Null))
            &&& makes(rb, JsTree::Null, plan, Step::Make(JsTree::Null))
            &&& makes(js, JsTree::Bool(flag), plan, Step::Make(JsTree::Bool(flag)))
            &&& makes(rb, JsTree::Bool(flag), plan, Step::Make(JsTree::Bool(flag)))
            &&& makes(js, JsTree::Int(number), plan, Step::Make(JsTree::Int(number)))
            &&& makes(rb, JsTree::Int(number), plan, Step::Make(JsTree::Int(number)))
            &&& makes(js, JsTree::Num(bits), plan, Step::Make(JsTree::Num(bits)))
            &&& makes(rb, JsTree::Num(bits), plan, Step::Make(JsTree::Num(bits)))
            &&& makes(
                js,
                JsTree::BigInt { negative, words },
                plan,
                Step::Make(JsTree::BigInt { negative, words }),
            )
            &&& makes(
                rb,
                JsTree::BigInt { negative, words },
                plan,
                Step::MakeInteger { negative, hex: hex_of(words) },
            )
            &&& makes(rb, JsTree::Str(text), plan, Step::Make(JsTree::Str(text)))
            &&& encode_utf8(text).len() <= max_string ==> makes(
                js,
                JsTree::Str(text),
                plan,
                Step::Make(JsTree::Str(text)),
            )
            &&& encode_utf8(text).len() > max_string ==> makes(
                js,
                JsTree::Str(text),
                plan,
                Step::Make(JsTree::Undefined),
            )
            &&& makes(js, JsTree::Date(bits), plan, Step::Make(JsTree::Date(bits)))
            &&& finite(bits) ==> makes(rb, JsTree::Date(bits), plan, Step::Make(JsTree::Date(bits)))
            &&& !finite(bits) ==> plan_value(rb, JsTree::Date(bits), plan) is None
            &&& makes(
                js,
                JsTree::Bytes { id: None, bytes },
                plan,
                Step::Make(JsTree::Bytes { id: None, bytes }),
            )
            &&& makes(
                rb,
                JsTree::Bytes { id: None, bytes },
                plan,
                Step::Make(JsTree::Bytes { id: None, bytes }),
            )
            &&& !plan.built.contains_key(id) ==> makes(
                js,
                JsTree::Ref(id),
                plan,
                Step::Make(JsTree::Undefined),
            )
            &&& !plan.built.contains_key(id) ==> makes(
                rb,
                JsTree::Ref(id),
                plan,
                Step::Make(JsTree::Null),
            )
        }),
{
}

/// The value is built by this one step, and by nothing else.
pub open spec fn makes(side: Side, t: JsTree, plan: Plan, step: Step) -> bool {
    plan_value(side, t, plan) matches Some((after, at)) && at == plan.steps.len() && after.steps
        == plan.steps.push(step) && after.built == plan.built
}

/// A value is built once: a reference to it takes no step, and is the value that
/// was made under its id. Bytes are known by their id from the step that makes
/// them.
pub proof fn law_references_build_nothing(side: Side, plan: Plan, id: nat, bytes: Seq<u8>)
    ensures
        plan.built.contains_key(id) ==> plan_value(side, JsTree::Ref(id), plan) == Some(
            (plan, plan.built[id]),
        ),
        plan_value(side, JsTree::Bytes { id: Some(id), bytes }, plan) matches Some((after, at))
            && at == plan.steps.len() && after.steps == plan.steps.push(
            Step::Make(JsTree::Bytes { id: Some(id), bytes }),
        ) && plan_value(side, JsTree::Ref(id), after) == Some((after, at)),
{
}

/// Somewhere in the tree stands a date that is none.
pub open spec fn holds_a_bad_date(t: JsTree) -> bool
    decreases t,
{
    match t {
        JsTree::Date(ms) => !finite(ms),
        JsTree::Array { items, .. } => exists|i: int|
            0 <= i < items.len() && holds_a_bad_date(#[trigger] items[i]),
        JsTree::JsSet { items, .. } => exists|i: int|
            0 <= i < items.len() && holds_a_bad_date(#[trigger] items[i]),
        JsTree::Obj { entries, .. } => exists|i: int|
            0 <= i < entries.len() && holds_a_bad_date((#[trigger] entries[i]).1),
        JsTree::JsMap { pairs, .. } => exists|i: int|
            0 <= i < pairs.len() && (holds_a_bad_date((#[trigger] pairs[i]).0) || holds_a_bad_date(
                pairs[i].1,
            )),
        _ => false,
    }
}

/// Everything can be built in JavaScript, and everything but a date that is none,
/// wherever it stands, in Ruby.
pub proof fn law_what_can_be_built(max_string: usize, t: JsTree)
    ensures
        build_plan(Side::JavaScript { max_string }, t) is Some,
        build_plan(Side::Ruby, t) is None <==> holds_a_bad_date(t),
{
    lemma_js_plans(Side::JavaScript { max_string }, t, no_plan());
    lemma_rb_plans(t, no_plan());
}

proof fn lemma_rb_plans(t: JsTree, plan: Plan)
    ensures
        plan_value(Side::Ruby, t, plan) is None <==> holds_a_bad_date(t),
    decreases t,
{
    let at = plan.steps.len();
    match t {
        JsTree::Array { id, items } => lemma_rb_plans_items(
            items,
            at,
            plan.make(Step::NewArray(items.len()), id),
        ),
        JsTree::JsSet { id, items } => lemma_rb_plans_members(items, at, plan.make(Step::NewSet, id)),
        JsTree::Obj { id, entries } => lemma_rb_plans_entries(
            entries,
            at,
            plan.make(Step::NewObject, id),
        ),
        JsTree::JsMap { id, pairs } => lemma_rb_plans_pairs(pairs, at, plan.make(Step::NewMap, id)),
        _ => {},
    }
}

proof fn lemma_rb_plans_items(items: Seq<JsTree>, at: nat, plan: Plan)
    ensures
        plan_items(Side::Ruby, items, at, plan) is None <==> exists|i: int|
            0 <= i < items.len() && holds_a_bad_date(#[trigger] items[i]),
    decreases items,
{
    if items.len() > 0 {
        let fewer = items.drop_last();
        lemma_rb_plans_items(fewer, at, plan);
        assert(forall|i: int| 0 <= i < fewer.len() ==> fewer[i] == #[trigger] items[i]);
        if let Some(mid) = plan_items(Side::Ruby, fewer, at, plan) {
            lemma_rb_plans(items.last(), mid);
            assert(items[items.len() - 1] == items.last());
        } else {
            let i = choose|i: int| 0 <= i < fewer.len() && holds_a_bad_date(#[trigger] fewer[i]);
            assert(holds_a_bad_date(items[i]));
        }
    }
}

proof fn lemma_rb_plans_members(items: Seq<JsTree>, at: nat, plan: Plan)
    ensures
        plan_members(Side::Ruby, items, at, plan) is None <==> exists|i: int|
            0 <= i < items.len() && holds_a_bad_date(#[trigger] items[i]),
    decreases items,
{
    if items.len() > 0 {
        let fewer = items.drop_last();
        lemma_rb_plans_members(fewer, at, plan);
        assert(forall|i: int| 0 <= i < fewer.len() ==> fewer[i] == #[trigger] items[i]);
        if let Some(mid) = plan_members(Side::Ruby, fewer, at, plan) {
            lemma_rb_plans(items.last(), mid);
            assert(items[items.len() - 1] == items.last());
        } else {
            let i = choose|i: int| 0 <= i < fewer.len() && holds_a_bad_date(#[trigger] fewer[i]);
            assert(holds_a_bad_date(items[i]));
        }
    }
}

proof fn lemma_rb_plans_entries(items: Seq<(Seq<char>, JsTree)>, at: nat, plan: Plan)
    ensures
        plan_entries(Side::Ruby, items, at, plan) is None <==> exists|i: int|
            0 <= i < items.len() && holds_a_bad_date((#[trigger] items[i]).1),
    decreases items,
{
    if items.len() > 0 {
        let fewer = items.drop_last();
        lemma_rb_plans_entries(fewer, at, plan);
        assert(forall|i: int| 0 <= i < fewer.len() ==> fewer[i] == #[trigger] items[i]);
        if let Some(mid) = plan_entries(Side::Ruby, fewer, at, plan) {
            lemma_rb_plans(items.last().1, mid);
            assert(items[items.len() - 1] == items.last());
        } else {
            let i = choose|i: int| 0 <= i < fewer.len() && holds_a_bad_date((#[trigger] fewer[i]).1);
            assert(holds_a_bad_date(items[i].1));
        }
    }
}

proof fn lemma_rb_plans_pairs(items: Seq<(JsTree, JsTree)>, at: nat, plan: Plan)
    ensures
        plan_pairs(Side::Ruby, items, at, plan) is None <==> exists|i: int|
            0 <= i < items.len() && (holds_a_bad_date((#[trigger] items[i]).0) || holds_a_bad_date(
                items[i].1,
            )),
    decreases items,
{
    if items.len() > 0 {
        let fewer = items.drop_last();
        lemma_rb_plans_pairs(fewer, at, plan);
        assert(forall|i: int| 0 <= i < fewer.len() ==> fewer[i] == #[trigger] items[i]);
        if let Some(mid) = plan_pairs(Side::Ruby, fewer, at, plan) {
            lemma_rb_plans(items.last().0, mid);
            if let Some((p, key)) = plan_value(Side::Ruby, items.last().0, mid) {
                lemma_rb_plans(items.last().1, p);
            }
            assert(items[items.len() - 1] == items.last());
        } else {
            let i = choose|i: int|
                0 <= i < fewer.len() && (holds_a_bad_date((#[trigger] fewer[i]).0) || holds_a_bad_date(
                    fewer[i].1,
                ));
            assert(holds_a_bad_date(items[i].0) || holds_a_bad_date(items[i].1));
        }
    }
}

/// An entry whose key the engine cannot make is left out, with what stands under it;
/// every other entry is set under its own key.
pub proof fn law_keys_are_kept_if_they_can_be_made(
    side: Side,
    entries: Seq<(Seq<char>, JsTree)>,
    key: Seq<char>,
    t: JsTree,
    at: nat,
    plan: Plan,
    mid: Plan,
)
    requires
        plan_entries(side, entries, at, plan) == Some(mid),
    ensures
        ({
            let all = plan_entries(side, entries.push((key, t)), at, plan);
            if side matches Side::JavaScript { max_string } && encode_utf8(key).len() > max_string {
                all == Some(mid)
            } else {
                match plan_value(side, t, mid) {
                    Some((p, value)) => all matches Some(last) && last.steps == p.steps.push(
                        Step::SetKey { object: at, key, value },
                    ) && last.built == p.built,
                    None => all is None,
                }
            }
        }),
{
    assert(entries.push((key, t)).drop_last() =~= entries);
}

} // verus!
