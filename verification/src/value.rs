//! Values on their way between JavaScript and Ruby, as plain data.

use vstd::prelude::*;

verus! {

/// A value on its way between JavaScript and Ruby. Nothing in it is tied to
/// either engine.
///
/// A container carries an id: the first time an object is met it is written out
/// under its id, and any later meeting (a sibling that shares it, or a cycle
/// back to an ancestor) is a `Ref` to that id.
#[allow(inconsistent_fields)]
#[derive(Debug, PartialEq, Eq)]
pub enum JsVal {
    Undefined,
    Null,
    Bool(bool),
    Int(i64),
    /// A number, as the bits of an IEEE 754 double.
    Num(u64),
    Str(String),
    /// Binary bytes. `id` is `None` where identity is not tracked.
    Bytes { id: Option<usize>, bytes: Vec<u8> },
    /// An integer of any size: a sign and little-endian 64-bit limbs.
    BigInt { negative: bool, words: Vec<u64> },
    /// Milliseconds since the Unix epoch, as the bits of an IEEE 754 double.
    Date(u64),
    Array { id: usize, items: Vec<JsVal> },
    /// String keys, in insertion order.
    Obj { id: usize, entries: Vec<(String, JsVal)> },
    /// Keys of any kind, in insertion order.
    JsMap { id: usize, pairs: Vec<(JsVal, JsVal)> },
    JsSet { id: usize, items: Vec<JsVal> },
    /// A container that was already written out.
    Ref(usize),
}

/// What a `JsVal` says, as a mathematical value.
#[allow(inconsistent_fields)]
pub enum JsTree {
    Undefined,
    Null,
    Bool(bool),
    Int(i64),
    Num(u64),
    Str(Seq<char>),
    Bytes { id: Option<nat>, bytes: Seq<u8> },
    BigInt { negative: bool, words: Seq<u64> },
    Date(u64),
    Array { id: nat, items: Seq<JsTree> },
    Obj { id: nat, entries: Seq<(Seq<char>, JsTree)> },
    JsMap { id: nat, pairs: Seq<(JsTree, JsTree)> },
    JsSet { id: nat, items: Seq<JsTree> },
    Ref(nat),
}

impl JsVal {
    pub open spec fn tree(self) -> JsTree
        decreases self,
    {
        match self {
            JsVal::Undefined => JsTree::Undefined,
            JsVal::Null => JsTree::Null,
            JsVal::Bool(b) => JsTree::Bool(b),
            JsVal::Int(i) => JsTree::Int(i),
            JsVal::Num(n) => JsTree::Num(n),
            JsVal::Str(s) => JsTree::Str(s@),
            JsVal::Bytes { id, bytes } => JsTree::Bytes { id: id_of(id), bytes: bytes@ },
            JsVal::BigInt { negative, words } => JsTree::BigInt { negative, words: words@ },
            JsVal::Date(ms) => JsTree::Date(ms),
            JsVal::Array { id, items } => JsTree::Array {
                id: id as nat,
                items: Seq::new(
                    items@.len(),
                    |i: int|
                        if 0 <= i < items@.len() {
                            items@[i].tree()
                        } else {
                            arbitrary()
                        },
                ),
            },
            JsVal::Obj { id, entries } => JsTree::Obj {
                id: id as nat,
                entries: Seq::new(
                    entries@.len(),
                    |i: int|
                        if 0 <= i < entries@.len() {
                            (entries@[i].0@, entries@[i].1.tree())
                        } else {
                            arbitrary()
                        },
                ),
            },
            JsVal::JsMap { id, pairs } => JsTree::JsMap {
                id: id as nat,
                pairs: Seq::new(
                    pairs@.len(),
                    |i: int|
                        if 0 <= i < pairs@.len() {
                            (pairs@[i].0.tree(), pairs@[i].1.tree())
                        } else {
                            arbitrary()
                        },
                ),
            },
            JsVal::JsSet { id, items } => JsTree::JsSet {
                id: id as nat,
                items: Seq::new(
                    items@.len(),
                    |i: int|
                        if 0 <= i < items@.len() {
                            items@[i].tree()
                        } else {
                            arbitrary()
                        },
                ),
            },
            JsVal::Ref(id) => JsTree::Ref(id as nat),
        }
    }
}

pub open spec fn id_of(id: Option<usize>) -> Option<nat> {
    match id {
        Some(i) => Some(i as nat),
        None => None,
    }
}

/// What a list of values says.
pub open spec fn trees(items: Seq<JsVal>) -> Seq<JsTree> {
    Seq::new(items.len(), |i: int| items[i].tree())
}

/// What a list of string-keyed entries says.
pub open spec fn entry_trees(entries: Seq<(String, JsVal)>) -> Seq<(Seq<char>, JsTree)> {
    Seq::new(entries.len(), |i: int| (entries[i].0@, entries[i].1.tree()))
}

/// What a list of key-value pairs says.
pub open spec fn pair_trees(pairs: Seq<(JsVal, JsVal)>) -> Seq<(JsTree, JsTree)> {
    Seq::new(pairs.len(), |i: int| (pairs[i].0.tree(), pairs[i].1.tree()))
}

/// The tree of a container, over the trees of what it holds.
pub proof fn lemma_container_trees(val: JsVal)
    ensures
        match val {
            JsVal::Array { id, items } => val.tree() == (JsTree::Array {
                id: id as nat,
                items: trees(items@),
            }),
            JsVal::Obj { id, entries } => val.tree() == (JsTree::Obj {
                id: id as nat,
                entries: entry_trees(entries@),
            }),
            JsVal::JsMap { id, pairs } => val.tree() == (JsTree::JsMap {
                id: id as nat,
                pairs: pair_trees(pairs@),
            }),
            JsVal::JsSet { id, items } => val.tree() == (JsTree::JsSet {
                id: id as nat,
                items: trees(items@),
            }),
            _ => true,
        },
{
    match val {
        JsVal::Array { id, items } => {
            assert(val.tree()->Array_items =~= trees(items@));
        },
        JsVal::Obj { id, entries } => {
            assert(val.tree()->Obj_entries =~= entry_trees(entries@));
        },
        JsVal::JsMap { id, pairs } => {
            assert(val.tree()->JsMap_pairs =~= pair_trees(pairs@));
        },
        JsVal::JsSet { id, items } => {
            assert(val.tree()->JsSet_items =~= trees(items@));
        },
        _ => {},
    }
}

/// Sharing and cycles are carried by references, so this only guards the native
/// stack against a graph that is very deep and has no cycle.
pub const MAX_MARSHAL_DEPTH: u32 = 256;

/// A tree as a reader writes it, `depth` containers deep, after `lo` ids have
/// been given out and with `hi` given out at its end. Ids are given out in the
/// order in which containers are met, a reference points to a container that was
/// met before, and no container stands deeper than the limit.
pub open spec fn numbered(t: JsTree, lo: nat, hi: nat, depth: nat) -> bool
    decreases t,
{
    match t {
        JsTree::Ref(j) => j < lo && hi == lo,
        JsTree::Bytes { id, .. } => match id {
            Some(k) => k == lo && hi == lo + 1,
            None => hi == lo,
        },
        JsTree::Array { id, items } => id == lo && depth < MAX_MARSHAL_DEPTH && all_numbered(
            items,
            lo + 1,
            hi,
            depth + 1,
        ),
        JsTree::JsSet { id, items } => id == lo && depth < MAX_MARSHAL_DEPTH && all_numbered(
            items,
            lo + 1,
            hi,
            depth + 1,
        ),
        JsTree::Obj { id, entries } => id == lo && depth < MAX_MARSHAL_DEPTH && entries_numbered(
            entries,
            lo + 1,
            hi,
            depth + 1,
        ),
        JsTree::JsMap { id, pairs } => id == lo && depth < MAX_MARSHAL_DEPTH && pairs_numbered(
            pairs,
            lo + 1,
            hi,
            depth + 1,
        ),
        _ => hi == lo,
    }
}

/// A count of ids given out so far.
pub open spec fn so_far(count: nat) -> bool {
    true
}

/// The same of a list, read from its start to its end.
pub open spec fn all_numbered(items: Seq<JsTree>, lo: nat, hi: nat, depth: nat) -> bool
    decreases items,
{
    if items.len() == 0 {
        lo == hi
    } else {
        exists|mid: nat|
            #![trigger so_far(mid)]
            so_far(mid) && numbered(items.last(), mid, hi, depth) && all_numbered(
                items.drop_last(),
                lo,
                mid,
                depth,
            )
    }
}

/// The same of an object's entries.
pub open spec fn entries_numbered(
    entries: Seq<(Seq<char>, JsTree)>,
    lo: nat,
    hi: nat,
    depth: nat,
) -> bool
    decreases entries,
{
    if entries.len() == 0 {
        lo == hi
    } else {
        exists|mid: nat|
            #![trigger so_far(mid)]
            so_far(mid) && numbered(entries.last().1, mid, hi, depth) && entries_numbered(
                entries.drop_last(),
                lo,
                mid,
                depth,
            )
    }
}

/// The same of a map's pairs, each key before its value.
pub open spec fn pairs_numbered(
    pairs: Seq<(JsTree, JsTree)>,
    lo: nat,
    hi: nat,
    depth: nat,
) -> bool
    decreases pairs,
{
    if pairs.len() == 0 {
        lo == hi
    } else {
        exists|mid: nat, end: nat|
            #![trigger so_far(mid), so_far(end)]
            so_far(mid) && so_far(end) && numbered(pairs.last().0, mid, end, depth) && numbered(
                pairs.last().1,
                end,
                hi,
                depth,
            ) && pairs_numbered(pairs.drop_last(), lo, mid, depth)
    }
}

/// A list with one more item at its end.
pub proof fn lemma_all_numbered_push(
    items: Seq<JsTree>,
    item: JsTree,
    lo: nat,
    mid: nat,
    hi: nat,
    depth: nat,
)
    requires
        all_numbered(items, lo, mid, depth),
        numbered(item, mid, hi, depth),
    ensures
        all_numbered(items.push(item), lo, hi, depth),
{
    let more = items.push(item);
    assert(more.drop_last() =~= items);
    assert(so_far(mid));
}

/// Entries with one more at their end.
pub proof fn lemma_entries_numbered_push(
    entries: Seq<(Seq<char>, JsTree)>,
    entry: (Seq<char>, JsTree),
    lo: nat,
    mid: nat,
    hi: nat,
    depth: nat,
)
    requires
        entries_numbered(entries, lo, mid, depth),
        numbered(entry.1, mid, hi, depth),
    ensures
        entries_numbered(entries.push(entry), lo, hi, depth),
{
    let more = entries.push(entry);
    assert(more.drop_last() =~= entries);
    assert(so_far(mid));
}

/// Pairs with one more at their end.
pub proof fn lemma_pairs_numbered_push(
    pairs: Seq<(JsTree, JsTree)>,
    pair: (JsTree, JsTree),
    lo: nat,
    mid: nat,
    end: nat,
    hi: nat,
    depth: nat,
)
    requires
        pairs_numbered(pairs, lo, mid, depth),
        numbered(pair.0, mid, end, depth),
        numbered(pair.1, end, hi, depth),
    ensures
        pairs_numbered(pairs.push(pair), lo, hi, depth),
{
    let more = pairs.push(pair);
    assert(more.drop_last() =~= pairs);
    assert(so_far(mid) && so_far(end));
}

} // verus!
