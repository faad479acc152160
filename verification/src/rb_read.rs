//! Reading a Ruby value: what Ruby is asked, in which order, and what comes of
//! its answers.
//!
//! Ruby is reached through one function from questions to answers, over a handle
//! type `V` that stays opaque here. Most questions may raise; `X` stands for
//! what was raised.

use std::collections::HashMap;
use vstd::prelude::*;

use crate::bigint::hex_to_words;
use crate::bigint::hex_words;
use crate::text::lossy_text;
use crate::text::lossy_utf8;
use crate::text::utf8_of;
use crate::text::utf8_text;
use crate::value::all_numbered;
use crate::value::entries_numbered;
use crate::value::entry_trees;
use crate::value::lemma_all_numbered_push;
use crate::value::lemma_container_trees;
use crate::value::lemma_entries_numbered_push;
use crate::value::lemma_pairs_numbered_push;
use crate::value::numbered;
use crate::value::pair_trees;
use crate::value::pairs_numbered;
use crate::value::so_far;
use crate::value::trees;
use crate::value::JsTree;
use crate::value::JsVal;
use crate::value::MAX_MARSHAL_DEPTH;

verus! {

/// The largest magnitude up to which every integer is a double: 2 to the 53.
pub const MAX_EXACT_INT: i64 = 9007199254740992;

/// A question about a value's kind.
#[derive(Debug, Clone, Copy, PartialEq, Eq, Structural)]
pub enum RbTest {
    Nil,
    True,
    False,
    Time,
    Integer,
    Symbol,
    String,
    /// Does it respond to `to_str`?
    StringLike,
    /// Is it a `Set`?
    SetObject,
    /// Is it a `RustyRacer::JSMap`?
    JsMap,
}

/// What a string is tagged as.
#[derive(Debug, Clone, Copy, PartialEq, Eq, Structural)]
pub enum RbEncoding {
    Binary,
    Utf8,
    Other,
}

/// A question to Ruby.
#[derive(Debug)]
pub enum RbAsk<V> {
    Is(V, RbTest),
    /// A time as milliseconds since the Unix epoch.
    Millis(V),
    /// An integer, if it fits in 64 bits.
    Small(V),
    /// An integer's magnitude in hexadecimal.
    Hex(V),
    Negative(V),
    /// A value as a double, if Ruby takes it for one.
    Float(V),
    /// A symbol's name, if it is valid text.
    SymbolName(V),
    Encoding(V),
    /// A string's bytes.
    Bytes(V),
    /// A string, transcoded to UTF-8.
    Encode(V),
    ToStr(V),
    ToS(V),
    /// The elements of a set, as an array.
    ToA(V),
    /// An array, if Ruby takes the value for one.
    ArrayOf(V),
    /// A hash, if Ruby takes the value for one.
    HashOf(V),
    /// Begins to go through a hash: the way through it, and how many pairs it has.
    /// Until the way is ended, Ruby lets no key be added to the hash.
    Pairs(V),
    /// The next pair on the way, after so many others; none at its end. A pair that
    /// was deleted on the way is not met.
    Pair(V, usize),
    /// Ends the way, wherever it has come to.
    End(V),
    /// An array's length.
    Len(V),
    /// One element of an array.
    Entry(V, usize),
    ObjectId(V),
}

/// An answer of Ruby's.
#[derive(Debug)]
pub enum RbTold<V, X> {
    Is(bool),
    Millis(Result<u64, X>),
    Small(Option<i64>),
    Hex(Result<String, X>),
    Negative(Result<bool, X>),
    Float(Option<u64>),
    SymbolName(Option<String>),
    Encoding(RbEncoding),
    Bytes(Vec<u8>),
    Value(Result<V, X>),
    Maybe(Option<V>),
    Pairs(Result<(V, usize), X>),
    Pair(Result<Option<(V, V)>, X>),
    Ended,
    Len(usize),
    ObjectId(Result<usize, X>),
}

/// Why a value does not cross.
#[derive(Debug, Clone, Copy, PartialEq, Eq, Structural)]
pub enum RbRefusal {
    SymbolName,
    TextBytes,
    KeyBytes,
    KeyText,
    DeepText,
    Unsupported,
}

/// What went wrong while a value was read: Ruby raised, or the value does not
/// cross.
#[derive(Debug, PartialEq, Eq)]
pub enum RbFault<X> {
    Raised(X),
    Refused(RbRefusal),
}

/// What Ruby would say to every question.
#[verifier::reject_recursive_types(V)]
#[verifier::reject_recursive_types(X)]
pub struct RbWorld<V, X> {
    pub is: spec_fn(V, RbTest) -> bool,
    pub millis: spec_fn(V) -> Result<u64, X>,
    pub small: spec_fn(V) -> Option<i64>,
    pub hex: spec_fn(V) -> Result<Seq<char>, X>,
    pub negative: spec_fn(V) -> Result<bool, X>,
    pub float: spec_fn(V) -> Option<u64>,
    pub symbol_name: spec_fn(V) -> Option<Seq<char>>,
    pub encoding: spec_fn(V) -> RbEncoding,
    pub bytes: spec_fn(V) -> Seq<u8>,
    pub encode: spec_fn(V) -> Result<V, X>,
    pub to_str: spec_fn(V) -> Result<V, X>,
    pub to_s: spec_fn(V) -> Result<V, X>,
    pub to_a: spec_fn(V) -> Result<V, X>,
    pub array_of: spec_fn(V) -> Option<V>,
    pub hash_of: spec_fn(V) -> Option<V>,
    pub pairs: spec_fn(V) -> Result<(V, usize), X>,
    pub pair: spec_fn(V, usize) -> Result<Option<(V, V)>, X>,
    pub len: spec_fn(V) -> usize,
    pub entry: spec_fn(V, usize) -> Result<V, X>,
    pub object_id: spec_fn(V) -> Result<usize, X>,
}

/// What a text or an error says.
pub open spec fn told_text<X>(text: Result<String, X>) -> Result<Seq<char>, X> {
    match text {
        Ok(s) => Ok(s@),
        Err(x) => Err(x),
    }
}

impl<V, X> RbWorld<V, X> {
    /// This answer to this question is the one that the world gives.
    pub open spec fn admits(self, q: RbAsk<V>, a: RbTold<V, X>) -> bool {
        match q {
            RbAsk::Is(v, t) => a matches RbTold::Is(b) && b == (self.is)(v, t),
            RbAsk::Millis(v) => a matches RbTold::Millis(r) && r == (self.millis)(v),
            RbAsk::Small(v) => a matches RbTold::Small(r) && r == (self.small)(v),
            RbAsk::Hex(v) => a matches RbTold::Hex(r) && told_text(r) == (self.hex)(v),
            RbAsk::Negative(v) => a matches RbTold::Negative(r) && r == (self.negative)(v),
            RbAsk::Float(v) => a matches RbTold::Float(r) && r == (self.float)(v),
            RbAsk::SymbolName(v) => a matches RbTold::SymbolName(r) && (match r {
                Some(s) => (self.symbol_name)(v) == Some(s@),
                None => (self.symbol_name)(v) is None,
            }),
            RbAsk::Encoding(v) => a matches RbTold::Encoding(e) && e == (self.encoding)(v),
            RbAsk::Bytes(v) => a matches RbTold::Bytes(b) && b@ == (self.bytes)(v),
            RbAsk::Encode(v) => a matches RbTold::Value(r) && r == (self.encode)(v),
            RbAsk::ToStr(v) => a matches RbTold::Value(r) && r == (self.to_str)(v),
            RbAsk::ToS(v) => a matches RbTold::Value(r) && r == (self.to_s)(v),
            RbAsk::ToA(v) => a matches RbTold::Value(r) && r == (self.to_a)(v),
            RbAsk::ArrayOf(v) => a matches RbTold::Maybe(r) && r == (self.array_of)(v),
            RbAsk::HashOf(v) => a matches RbTold::Maybe(r) && r == (self.hash_of)(v),
            RbAsk::Pairs(v) => a matches RbTold::Pairs(r) && r == (self.pairs)(v),
            RbAsk::Pair(v, i) => a matches RbTold::Pair(r) && r == (self.pair)(v, i),
            RbAsk::End(_) => true,
            RbAsk::Len(v) => a matches RbTold::Len(n) && n == (self.len)(v),
            RbAsk::Entry(v, i) => a matches RbTold::Value(r) && r == (self.entry)(v, i),
            RbAsk::ObjectId(v) => a matches RbTold::ObjectId(r) && r == (self.object_id)(v),
        }
    }
}

/// Every answer that `ask` can give is the one that the world gives.
pub open spec fn rb_models<V, X, F: Fn(RbAsk<V>) -> RbTold<V, X>>(
    ask: F,
    w: RbWorld<V, X>,
) -> bool {
    forall|q: RbAsk<V>, a: RbTold<V, X>| #[trigger] call_ensures(ask, (q,), a) ==> w.admits(q, a)
}

/// `ask` may be asked anything.
pub open spec fn rb_askable<V, X, F: Fn(RbAsk<V>) -> RbTold<V, X>>(ask: F) -> bool {
    forall|q: RbAsk<V>| #[trigger] call_requires(ask, (q,))
}

/// What reading yields: a tree and the objects written out by then, or a fault.
pub type RbYield<T, X> = Result<(T, Seq<usize>), RbFault<X>>;

/// A container is written out by reference, cut off to a text, or in full under
/// a new id. An object's identity is its object id.
pub enum RbSighting {
    Again(nat),
    Cut(Seq<char>),
    First(nat),
}

pub open spec fn rb_sighting<V, X>(
    w: RbWorld<V, X>,
    v: V,
    seen: Seq<usize>,
    depth: nat,
) -> Result<(RbSighting, Seq<usize>), RbFault<X>> {
    match (w.object_id)(v) {
        Err(x) => Err(RbFault::Raised(x)),
        Ok(oid) => if seen.contains(oid) {
            Ok((RbSighting::Again(seen.index_of(oid) as nat), seen))
        } else if depth < MAX_MARSHAL_DEPTH {
            Ok((RbSighting::First(seen.len()), seen.push(oid)))
        } else {
            match (w.to_s)(v) {
                Err(x) => Err(RbFault::Raised(x)),
                Ok(s) => if (w.is)(s, RbTest::String) {
                    Ok((RbSighting::Cut(lossy_utf8((w.bytes)(s))), seen))
                } else {
                    Err(RbFault::Refused(RbRefusal::DeepText))
                },
            }
        },
    }
}

/// A string by its tag: bytes if it is tagged binary, else text, which has to be
/// valid UTF-8 once it is transcoded.
pub open spec fn rb_string<V, X>(w: RbWorld<V, X>, v: V) -> Result<JsTree, RbFault<X>> {
    if (w.encoding)(v) == RbEncoding::Binary {
        Ok(JsTree::Bytes { id: None, bytes: (w.bytes)(v) })
    } else {
        match if (w.encoding)(v) == RbEncoding::Utf8 {
            Ok(v)
        } else {
            (w.encode)(v)
        } {
            Err(x) => Err(RbFault::Raised(x)),
            Ok(s) => match utf8_of((w.bytes)(s)) {
                Some(text) => Ok(JsTree::Str(text)),
                None => Err(RbFault::Refused(RbRefusal::TextBytes)),
            },
        }
    }
}

/// An integer: a plain number if every integer of its size is a double.
pub open spec fn rb_integer<V, X>(w: RbWorld<V, X>, v: V) -> Result<JsTree, RbFault<X>> {
    match (w.small)(v) {
        Some(i) if -MAX_EXACT_INT <= i <= MAX_EXACT_INT => Ok(JsTree::Int(i)),
        _ => match (w.hex)(v) {
            Err(x) => Err(RbFault::Raised(x)),
            Ok(hex) => match (w.negative)(v) {
                Err(x) => Err(RbFault::Raised(x)),
                Ok(negative) => Ok(
                    JsTree::BigInt {
                        negative,
                        words: hex_words(vstd::utf8::encode_utf8(hex)),
                    },
                ),
            },
        },
    }
}

/// A hash key: a string by its bytes, anything else by its `to_s`.
pub open spec fn rb_key<V, X>(w: RbWorld<V, X>, k: V) -> Result<Seq<char>, RbFault<X>> {
    match if (w.is)(k, RbTest::String) {
        Ok(k)
    } else {
        (w.to_s)(k)
    } {
        Err(x) => Err(RbFault::Raised(x)),
        Ok(s) => if (w.is)(s, RbTest::String) {
            match utf8_of((w.bytes)(s)) {
                Some(text) => Ok(text),
                None => Err(RbFault::Refused(RbRefusal::KeyBytes)),
            }
        } else {
            Err(RbFault::Refused(RbRefusal::KeyText))
        },
    }
}

/// What kind of container a value is, and where its contents are read.
pub enum RbShape<V> {
    SetObject,
    Array(V),
    JsMap,
    Hash(V),
    Unknown,
}

pub open spec fn rb_shape<V, X>(w: RbWorld<V, X>, v: V) -> RbShape<V> {
    if (w.is)(v, RbTest::SetObject) {
        RbShape::SetObject
    } else if let Some(array) = (w.array_of)(v) {
        RbShape::Array(array)
    } else if (w.is)(v, RbTest::JsMap) {
        RbShape::JsMap
    } else if let Some(hash) = (w.hash_of)(v) {
        RbShape::Hash(hash)
    } else {
        RbShape::Unknown
    }
}

/// A value as it crosses: the first kind that fits decides.
pub open spec fn rb_value<V, X>(
    w: RbWorld<V, X>,
    v: V,
    seen: Seq<usize>,
    depth: nat,
) -> RbYield<JsTree, X>
    decreases MAX_MARSHAL_DEPTH - depth, 4nat, 0nat,
{
    if (w.is)(v, RbTest::Nil) {
        Ok((JsTree::Null, seen))
    } else if (w.is)(v, RbTest::True) {
        Ok((JsTree::Bool(true), seen))
    } else if (w.is)(v, RbTest::False) {
        Ok((JsTree::Bool(false), seen))
    } else if (w.is)(v, RbTest::Time) {
        match (w.millis)(v) {
            Ok(ms) => Ok((JsTree::Date(ms), seen)),
            Err(x) => Err(RbFault::Raised(x)),
        }
    } else if (w.is)(v, RbTest::Integer) {
        with_seen(rb_integer(w, v), seen)
    } else if let Some(n) = (w.float)(v) {
        Ok((JsTree::Num(n), seen))
    } else if (w.is)(v, RbTest::Symbol) {
        match (w.symbol_name)(v) {
            Some(name) => Ok((JsTree::Str(name), seen)),
            None => Err(RbFault::Refused(RbRefusal::SymbolName)),
        }
    } else if (w.is)(v, RbTest::String) {
        if (w.encoding)(v) == RbEncoding::Binary {
            match rb_sighting(w, v, seen, 0) {
                Err(e) => Err(e),
                Ok((RbSighting::First(id), after)) => Ok(
                    (JsTree::Bytes { id: Some(id), bytes: (w.bytes)(v) }, after),
                ),
                Ok((sighting, after)) => Ok((stand_in(sighting), after)),
            }
        } else {
            with_seen(rb_string(w, v), seen)
        }
    } else if (w.is)(v, RbTest::StringLike) {
        match (w.to_str)(v) {
            Err(x) => Err(RbFault::Raised(x)),
            Ok(s) => if (w.is)(s, RbTest::String) {
                with_seen(rb_string(w, s), seen)
            } else {
                rb_container(w, v, seen, depth)
            },
        }
    } else {
        rb_container(w, v, seen, depth)
    }
}

pub open spec fn with_seen<T, X>(r: Result<T, RbFault<X>>, seen: Seq<usize>) -> RbYield<T, X> {
    match r {
        Ok(t) => Ok((t, seen)),
        Err(e) => Err(e),
    }
}

/// What stands for a container that is not written out.
pub open spec fn stand_in(sighting: RbSighting) -> JsTree {
    match sighting {
        RbSighting::Again(j) => JsTree::Ref(j),
        RbSighting::Cut(text) => JsTree::Str(text),
        RbSighting::First(_) => arbitrary(),
    }
}

/// A value that can only be a container.
pub open spec fn rb_container<V, X>(
    w: RbWorld<V, X>,
    v: V,
    seen: Seq<usize>,
    depth: nat,
) -> RbYield<JsTree, X>
    decreases MAX_MARSHAL_DEPTH - depth, 3nat, 0nat,
{
    let shape = rb_shape(w, v);
    if shape is Unknown {
        Err(RbFault::Refused(RbRefusal::Unsupported))
    } else {
        match rb_sighting(w, v, seen, depth) {
            Err(e) => Err(e),
            Ok((RbSighting::First(id), opened)) => match shape {
                RbShape::SetObject => match (w.to_a)(v) {
                    Err(x) => Err(RbFault::Raised(x)),
                    Ok(list) => match rb_items(w, list, (w.len)(list) as nat, opened, depth) {
                        Err(e) => Err(e),
                        Ok((items, after)) => Ok((JsTree::JsSet { id, items }, after)),
                    },
                },
                RbShape::Array(list) => match rb_items(w, list, (w.len)(list) as nat, opened, depth) {
                    Err(e) => Err(e),
                    Ok((items, after)) => Ok((JsTree::Array { id, items }, after)),
                },
                RbShape::JsMap => match (w.pairs)(v) {
                    Err(x) => Err(RbFault::Raised(x)),
                    Ok((way, n)) => match rb_pairs(w, way, n as nat, opened, depth) {
                        Err(e) => Err(e),
                        Ok((pairs, after)) => Ok((JsTree::JsMap { id, pairs }, after)),
                    },
                },
                RbShape::Hash(hash) => match (w.pairs)(hash) {
                    Err(x) => Err(RbFault::Raised(x)),
                    Ok((way, n)) => match rb_entries(w, way, n as nat, opened, depth) {
                        Err(e) => Err(e),
                        Ok((entries, after)) => Ok((JsTree::Obj { id, entries }, after)),
                    },
                },
                RbShape::Unknown => Err(RbFault::Refused(RbRefusal::Unsupported)),
            },
            Ok((sighting, after)) => Ok((stand_in(sighting), after)),
        }
    }
}

/// A value that stands in a container at depth `depth`.
pub open spec fn rb_child<V, X>(
    w: RbWorld<V, X>,
    v: V,
    seen: Seq<usize>,
    depth: nat,
) -> RbYield<JsTree, X>
    decreases MAX_MARSHAL_DEPTH - depth, 0nat, 0nat,
{
    if depth < MAX_MARSHAL_DEPTH {
        rb_value(w, v, seen, depth + 1)
    } else {
        arbitrary()
    }
}

/// One element of an array.
pub open spec fn rb_item<V, X>(
    w: RbWorld<V, X>,
    list: V,
    i: nat,
    seen: Seq<usize>,
    depth: nat,
) -> RbYield<JsTree, X>
    decreases MAX_MARSHAL_DEPTH - depth, 1nat, 0nat,
{
    match (w.entry)(list, i as usize) {
        Err(x) => Err(RbFault::Raised(x)),
        Ok(v) => rb_child(w, v, seen, depth),
    }
}

/// The next pair on the way through a hash, if it has not ended.
pub open spec fn rb_pair<V, X>(
    w: RbWorld<V, X>,
    way: V,
    i: nat,
    seen: Seq<usize>,
    depth: nat,
) -> RbYield<Option<(JsTree, JsTree)>, X>
    decreases MAX_MARSHAL_DEPTH - depth, 1nat, 0nat,
{
    match (w.pair)(way, i as usize) {
        Err(x) => Err(RbFault::Raised(x)),
        Ok(None) => Ok((None, seen)),
        Ok(Some((k, v))) => match rb_child(w, k, seen, depth) {
            Err(e) => Err(e),
            Ok((key, mid)) => match rb_child(w, v, mid, depth) {
                Err(e) => Err(e),
                Ok((val, after)) => Ok((Some((key, val)), after)),
            },
        },
    }
}

/// The next entry on the way through a hash, if it has not ended.
pub open spec fn rb_entry<V, X>(
    w: RbWorld<V, X>,
    way: V,
    i: nat,
    seen: Seq<usize>,
    depth: nat,
) -> RbYield<Option<(Seq<char>, JsTree)>, X>
    decreases MAX_MARSHAL_DEPTH - depth, 1nat, 0nat,
{
    match (w.pair)(way, i as usize) {
        Err(x) => Err(RbFault::Raised(x)),
        Ok(None) => Ok((None, seen)),
        Ok(Some((k, v))) => match rb_key(w, k) {
            Err(e) => Err(e),
            Ok(key) => match rb_child(w, v, seen, depth) {
                Err(e) => Err(e),
                Ok((val, after)) => Ok((Some((key, val)), after)),
            },
        },
    }
}

/// The first `n` elements of an array; the first fault ends it.
pub open spec fn rb_items<V, X>(
    w: RbWorld<V, X>,
    list: V,
    n: nat,
    seen: Seq<usize>,
    depth: nat,
) -> RbYield<Seq<JsTree>, X>
    decreases MAX_MARSHAL_DEPTH - depth, 2nat, n,
{
    if n == 0 {
        Ok((seq![], seen))
    } else {
        match rb_items(w, list, (n - 1) as nat, seen, depth) {
            Err(e) => Err(e),
            Ok((before, mid)) => match rb_item(w, list, (n - 1) as nat, mid, depth) {
                Err(e) => Err(e),
                Ok((one, after)) => Ok((before.push(one), after)),
            },
        }
    }
}

/// The pairs on the way through a hash, `n` at most: they end where the way ends, and
/// at the first fault.
pub open spec fn rb_pairs<V, X>(
    w: RbWorld<V, X>,
    way: V,
    n: nat,
    seen: Seq<usize>,
    depth: nat,
) -> RbYield<Seq<(JsTree, JsTree)>, X>
    decreases MAX_MARSHAL_DEPTH - depth, 2nat, n,
{
    if n == 0 {
        Ok((seq![], seen))
    } else {
        match rb_pairs(w, way, (n - 1) as nat, seen, depth) {
            Err(e) => Err(e),
            Ok((before, mid)) => if before.len() < n - 1 {
                Ok((before, mid))
            } else {
                match rb_pair(w, way, (n - 1) as nat, mid, depth) {
                    Err(e) => Err(e),
                    Ok((None, after)) => Ok((before, after)),
                    Ok((Some(one), after)) => Ok((before.push(one), after)),
                }
            },
        }
    }
}

/// The entries on the way through a hash, `n` at most: they end where the way ends, and
/// at the first fault.
pub open spec fn rb_entries<V, X>(
    w: RbWorld<V, X>,
    way: V,
    n: nat,
    seen: Seq<usize>,
    depth: nat,
) -> RbYield<Seq<(Seq<char>, JsTree)>, X>
    decreases MAX_MARSHAL_DEPTH - depth, 2nat, n,
{
    if n == 0 {
        Ok((seq![], seen))
    } else {
        match rb_entries(w, way, (n - 1) as nat, seen, depth) {
            Err(e) => Err(e),
            Ok((before, mid)) => if before.len() < n - 1 {
                Ok((before, mid))
            } else {
                match rb_entry(w, way, (n - 1) as nat, mid, depth) {
                    Err(e) => Err(e),
                    Ok((None, after)) => Ok((before, after)),
                    Ok((Some(one), after)) => Ok((before.push(one), after)),
                }
            },
        }
    }
}

/// A Ruby value as it crosses.
pub open spec fn rb_tree<V, X>(w: RbWorld<V, X>, v: V) -> Result<JsTree, RbFault<X>> {
    match rb_value(w, v, seq![], 0) {
        Ok((t, _)) => Ok(t),
        Err(e) => Err(e),
    }
}

// One question each. An answer that does not belong to the question counts as
// the plainest answer to it.

fn ask_is<V: Copy, X, F: Fn(RbAsk<V>) -> RbTold<V, X>>(ask: &F, v: V, t: RbTest) -> (out: bool)
    requires
        rb_askable(*ask),
    ensures
        forall|w: RbWorld<V, X>| #[trigger] rb_models(*ask, w) ==> out == (w.is)(v, t),
{
    match ask(RbAsk::Is(v, t)) {
        RbTold::Is(a) => a,
        _ => false,
    }
}

fn ask_millis<V: Copy, X, F: Fn(RbAsk<V>) -> RbTold<V, X>>(ask: &F, v: V) -> (out: Result<u64, X>)
    requires
        rb_askable(*ask),
    ensures
        forall|w: RbWorld<V, X>| #[trigger] rb_models(*ask, w) ==> out == (w.millis)(v),
{
    match ask(RbAsk::Millis(v)) {
        RbTold::Millis(a) => a,
        _ => Ok(0),
    }
}

fn ask_small<V: Copy, X, F: Fn(RbAsk<V>) -> RbTold<V, X>>(ask: &F, v: V) -> (out: Option<i64>)
    requires
        rb_askable(*ask),
    ensures
        forall|w: RbWorld<V, X>| #[trigger] rb_models(*ask, w) ==> out == (w.small)(v),
{
    match ask(RbAsk::Small(v)) {
        RbTold::Small(a) => a,
        _ => None,
    }
}

fn ask_hex<V: Copy, X, F: Fn(RbAsk<V>) -> RbTold<V, X>>(ask: &F, v: V) -> (out: Result<String, X>)
    requires
        rb_askable(*ask),
    ensures
        forall|w: RbWorld<V, X>| #[trigger] rb_models(*ask, w) ==> told_text(out) == (w.hex)(v),
{
    match ask(RbAsk::Hex(v)) {
        RbTold::Hex(a) => a,
        _ => Ok(String::new()),
    }
}

fn ask_negative<V: Copy, X, F: Fn(RbAsk<V>) -> RbTold<V, X>>(ask: &F, v: V) -> (out: Result<bool, X>)
    requires
        rb_askable(*ask),
    ensures
        forall|w: RbWorld<V, X>| #[trigger] rb_models(*ask, w) ==> out == (w.negative)(v),
{
    match ask(RbAsk::Negative(v)) {
        RbTold::Negative(a) => a,
        _ => Ok(false),
    }
}

fn ask_float<V: Copy, X, F: Fn(RbAsk<V>) -> RbTold<V, X>>(ask: &F, v: V) -> (out: Option<u64>)
    requires
        rb_askable(*ask),
    ensures
        forall|w: RbWorld<V, X>| #[trigger] rb_models(*ask, w) ==> out == (w.float)(v),
{
    match ask(RbAsk::Float(v)) {
        RbTold::Float(a) => a,
        _ => None,
    }
}

fn ask_symbol_name<V: Copy, X, F: Fn(RbAsk<V>) -> RbTold<V, X>>(ask: &F, v: V) -> (out: Option<String>)
    requires
        rb_askable(*ask),
    ensures
        forall|w: RbWorld<V, X>| #[trigger] rb_models(*ask, w) ==> match out {
            Some(s) => (w.symbol_name)(v) == Some(s@),
            None => (w.symbol_name)(v) is None,
        },
{
    match ask(RbAsk::SymbolName(v)) {
        RbTold::SymbolName(a) => a,
        _ => None,
    }
}

fn ask_encoding<V: Copy, X, F: Fn(RbAsk<V>) -> RbTold<V, X>>(ask: &F, v: V) -> (out: RbEncoding)
    requires
        rb_askable(*ask),
    ensures
        forall|w: RbWorld<V, X>| #[trigger] rb_models(*ask, w) ==> out == (w.encoding)(v),
{
    match ask(RbAsk::Encoding(v)) {
        RbTold::Encoding(a) => a,
        _ => RbEncoding::Other,
    }
}

fn ask_bytes<V: Copy, X, F: Fn(RbAsk<V>) -> RbTold<V, X>>(ask: &F, v: V) -> (out: Vec<u8>)
    requires
        rb_askable(*ask),
    ensures
        forall|w: RbWorld<V, X>| #[trigger] rb_models(*ask, w) ==> out@ == (w.bytes)(v),
{
    match ask(RbAsk::Bytes(v)) {
        RbTold::Bytes(a) => a,
        _ => Vec::new(),
    }
}

fn ask_len<V: Copy, X, F: Fn(RbAsk<V>) -> RbTold<V, X>>(ask: &F, v: V) -> (out: usize)
    requires
        rb_askable(*ask),
    ensures
        forall|w: RbWorld<V, X>| #[trigger] rb_models(*ask, w) ==> out == (w.len)(v),
{
    match ask(RbAsk::Len(v)) {
        RbTold::Len(a) => a,
        _ => 0,
    }
}

fn ask_object_id<V: Copy, X, F: Fn(RbAsk<V>) -> RbTold<V, X>>(ask: &F, v: V) -> (out: Result<usize, X>)
    requires
        rb_askable(*ask),
    ensures
        forall|w: RbWorld<V, X>| #[trigger] rb_models(*ask, w) ==> out == (w.object_id)(v),
{
    match ask(RbAsk::ObjectId(v)) {
        RbTold::ObjectId(a) => a,
        _ => Ok(0),
    }
}

fn ask_encode<V: Copy, X, F: Fn(RbAsk<V>) -> RbTold<V, X>>(ask: &F, v: V) -> (out: Result<V, X>)
    requires
        rb_askable(*ask),
    ensures
        forall|w: RbWorld<V, X>| #[trigger] rb_models(*ask, w) ==> out == (w.encode)(v),
{
    match ask(RbAsk::Encode(v)) {
        RbTold::Value(a) => a,
        _ => Ok(v),
    }
}

fn ask_to_str<V: Copy, X, F: Fn(RbAsk<V>) -> RbTold<V, X>>(ask: &F, v: V) -> (out: Result<V, X>)
    requires
        rb_askable(*ask),
    ensures
        forall|w: RbWorld<V, X>| #[trigger] rb_models(*ask, w) ==> out == (w.to_str)(v),
{
    match ask(RbAsk::ToStr(v)) {
        RbTold::Value(a) => a,
        _ => Ok(v),
    }
}

fn ask_to_s<V: Copy, X, F: Fn(RbAsk<V>) -> RbTold<V, X>>(ask: &F, v: V) -> (out: Result<V, X>)
    requires
        rb_askable(*ask),
    ensures
        forall|w: RbWorld<V, X>| #[trigger] rb_models(*ask, w) ==> out == (w.to_s)(v),
{
    match ask(RbAsk::ToS(v)) {
        RbTold::Value(a) => a,
        _ => Ok(v),
    }
}

fn ask_to_a<V: Copy, X, F: Fn(RbAsk<V>) -> RbTold<V, X>>(ask: &F, v: V) -> (out: Result<V, X>)
    requires
        rb_askable(*ask),
    ensures
        forall|w: RbWorld<V, X>| #[trigger] rb_models(*ask, w) ==> out == (w.to_a)(v),
{
    match ask(RbAsk::ToA(v)) {
        RbTold::Value(a) => a,
        _ => Ok(v),
    }
}

fn ask_pairs<V: Copy, X, F: Fn(RbAsk<V>) -> RbTold<V, X>>(ask: &F, v: V) -> (out: Result<(V, usize), X>)
    requires
        rb_askable(*ask),
    ensures
        forall|w: RbWorld<V, X>| #[trigger] rb_models(*ask, w) ==> out == (w.pairs)(v),
{
    match ask(RbAsk::Pairs(v)) {
        RbTold::Pairs(a) => a,
        _ => Ok((v, 0)),
    }
}

fn ask_pair<V: Copy, X, F: Fn(RbAsk<V>) -> RbTold<V, X>>(ask: &F, way: V, i: usize) -> (out: Result<
    Option<(V, V)>,
    X,
>)
    requires
        rb_askable(*ask),
    ensures
        forall|w: RbWorld<V, X>| #[trigger] rb_models(*ask, w) ==> out == (w.pair)(way, i),
{
    match ask(RbAsk::Pair(way, i)) {
        RbTold::Pair(a) => a,
        _ => Ok(None),
    }
}

fn ask_entry<V: Copy, X, F: Fn(RbAsk<V>) -> RbTold<V, X>>(ask: &F, v: V, i: usize) -> (out: Result<V, X>)
    requires
        rb_askable(*ask),
    ensures
        forall|w: RbWorld<V, X>| #[trigger] rb_models(*ask, w) ==> out == (w.entry)(v, i),
{
    match ask(RbAsk::Entry(v, i)) {
        RbTold::Value(a) => a,
        _ => Ok(v),
    }
}

fn ask_array_of<V: Copy, X, F: Fn(RbAsk<V>) -> RbTold<V, X>>(ask: &F, v: V) -> (out: Option<V>)
    requires
        rb_askable(*ask),
    ensures
        forall|w: RbWorld<V, X>| #[trigger] rb_models(*ask, w) ==> out == (w.array_of)(v),
{
    match ask(RbAsk::ArrayOf(v)) {
        RbTold::Maybe(a) => a,
        _ => None,
    }
}

fn ask_hash_of<V: Copy, X, F: Fn(RbAsk<V>) -> RbTold<V, X>>(ask: &F, v: V) -> (out: Option<V>)
    requires
        rb_askable(*ask),
    ensures
        forall|w: RbWorld<V, X>| #[trigger] rb_models(*ask, w) ==> out == (w.hash_of)(v),
{
    match ask(RbAsk::HashOf(v)) {
        RbTold::Maybe(a) => a,
        _ => None,
    }
}

/// The objects written out so far. Their positions are their ids.
pub struct RbSeen {
    /// The object ids, in the order in which they were met.
    order: Vec<usize>,
    /// The position of each.
    map: HashMap<usize, usize>,
}

impl RbSeen {
    /// The object ids written out so far, in order.
    pub closed spec fn view(&self) -> Seq<usize> {
        self.order@
    }

    pub closed spec fn wf(self) -> bool {
        &&& self.order@.no_duplicates()
        &&& forall|oid: usize|
            #[trigger] self.map@.contains_key(oid) ==> self.map@[oid] < self.order@.len()
                && self.order@[self.map@[oid] as int] == oid
        &&& forall|j: int|
            0 <= j < self.order@.len() ==> self.map@.contains_key(#[trigger] self.order@[j])
    }

    /// Nothing has been written out.
    pub fn new() -> (seen: Self)
        ensures
            seen.wf(),
            seen@ == Seq::<usize>::empty(),
    {
        broadcast use vstd::std_specs::hash::group_hash_axioms;

        RbSeen { order: Vec::new(), map: HashMap::new() }
    }

    fn find(&self, oid: usize) -> (id: Option<usize>)
        requires
            self.wf(),
        ensures
            match id {
                Some(j) => self@.contains(oid) && j == self@.index_of(oid) && j < self@.len(),
                None => !self@.contains(oid),
            },
    {
        broadcast use vstd::std_specs::hash::group_hash_axioms;

        match self.map.get(&oid) {
            Some(j) => {
                assert(self.order@[*j as int] == oid);
                assert(self.order@.index_of(oid) == *j);
                Some(*j)
            },
            None => None,
        }
    }

    /// Writes one more object down and returns its id.
    fn register(&mut self, oid: usize) -> (id: usize)
        requires
            old(self).wf(),
            !old(self)@.contains(oid),
        ensures
            final(self).wf(),
            id == old(self)@.len(),
            final(self)@ == old(self)@.push(oid),
    {
        broadcast use vstd::std_specs::hash::group_hash_axioms;

        let id: usize = self.order.len();
        self.order.push(oid);
        self.map.insert(oid, id);
        assert(self.order@.no_duplicates());
        id
    }
}

/// How a container is written out: in full under a new id, or as this value.
#[derive(Debug, PartialEq, Eq)]
pub enum RbId {
    New(usize),
    Reuse(JsVal),
}

/// Decides how a container is written out. One that is cut off gets no id, so no
/// reference can point to it.
pub fn rb_container_id<V: Copy, X, F: Fn(RbAsk<V>) -> RbTold<V, X>>(
    ask: &F,
    seen: &mut RbSeen,
    v: V,
    depth: u32,
) -> (out: Result<RbId, RbFault<X>>)
    requires
        rb_askable(*ask),
        old(seen).wf(),
    ensures
        final(seen).wf(),
        match out {
            Ok(RbId::New(id)) => depth < MAX_MARSHAL_DEPTH && id == old(seen)@.len()
                && final(seen)@.len() == id + 1,
            Ok(RbId::Reuse(val)) => final(seen)@ == old(seen)@ && match val.tree() {
                JsTree::Ref(j) => j < old(seen)@.len(),
                t => t is Str,
            },
            Err(_) => true,
        },
        forall|w: RbWorld<V, X>| #[trigger] rb_models(*ask, w) ==> match rb_sighting(
            w,
            v,
            old(seen)@,
            depth as nat,
        ) {
            Ok((RbSighting::First(id), after)) => (out matches Ok(RbId::New(k)) && k == id)
                && final(seen)@ == after,
            Ok((sighting, after)) => (out matches Ok(RbId::Reuse(val)) && val.tree() == stand_in(
                sighting,
            )) && final(seen)@ == after,
            Err(e) => out == Err::<RbId, RbFault<X>>(e),
        },
{
    let oid: usize = match ask_object_id(ask, v) {
        Ok(oid) => oid,
        Err(x) => {
            return Err(RbFault::Raised(x));
        },
    };
    if let Some(id) = seen.find(oid) {
        return Ok(RbId::Reuse(JsVal::Ref(id)));
    }
    if depth >= MAX_MARSHAL_DEPTH {
        let s = match ask_to_s(ask, v) {
            Ok(s) => s,
            Err(x) => {
                return Err(RbFault::Raised(x));
            },
        };
        if !ask_is(ask, s, RbTest::String) {
            return Err(RbFault::Refused(RbRefusal::DeepText));
        }
        let bytes = ask_bytes(ask, s);
        return Ok(RbId::Reuse(JsVal::Str(lossy_text(&bytes))));
    }
    Ok(RbId::New(seen.register(oid)))
}

/// A string, by its tag.
fn string_to_jsval<V: Copy, X, F: Fn(RbAsk<V>) -> RbTold<V, X>>(ask: &F, v: V) -> (out: Result<JsVal, RbFault<X>>)
    requires
        rb_askable(*ask),
    ensures
        out matches Ok(val) ==> match val.tree() {
            JsTree::Bytes { id, .. } => id is None,
            t => t is Str,
        },
        forall|w: RbWorld<V, X>| #[trigger] rb_models(*ask, w) ==> told_tree(out) == rb_string(w, v),
{
    let encoding = ask_encoding(ask, v);
    if encoding == RbEncoding::Binary {
        return Ok(JsVal::Bytes { id: None, bytes: ask_bytes(ask, v) });
    }
    let utf8 = if encoding == RbEncoding::Utf8 {
        v
    } else {
        match ask_encode(ask, v) {
            Ok(s) => s,
            Err(x) => {
                return Err(RbFault::Raised(x));
            },
        }
    };
    match utf8_text(ask_bytes(ask, utf8)) {
        Some(text) => Ok(JsVal::Str(text)),
        None => Err(RbFault::Refused(RbRefusal::TextBytes)),
    }
}

/// An integer.
fn integer_to_jsval<V: Copy, X, F: Fn(RbAsk<V>) -> RbTold<V, X>>(ask: &F, v: V) -> (out: Result<JsVal, RbFault<X>>)
    requires
        rb_askable(*ask),
    ensures
        out matches Ok(val) ==> val.tree() is Int || val.tree() is BigInt,
        forall|w: RbWorld<V, X>| #[trigger] rb_models(*ask, w) ==> told_tree(out) == rb_integer(w, v),
{
    if let Some(i) = ask_small(ask, v) {
        if i >= -MAX_EXACT_INT && i <= MAX_EXACT_INT {
            return Ok(JsVal::Int(i));
        }
    }
    let hex = match ask_hex(ask, v) {
        Ok(hex) => hex,
        Err(x) => {
            return Err(RbFault::Raised(x));
        },
    };
    let negative = match ask_negative(ask, v) {
        Ok(b) => b,
        Err(x) => {
            return Err(RbFault::Raised(x));
        },
    };
    Ok(JsVal::BigInt { negative, words: hex_to_words(hex.as_str()) })
}

/// A hash key as text.
fn string_key<V: Copy, X, F: Fn(RbAsk<V>) -> RbTold<V, X>>(ask: &F, k: V) -> (out: Result<String, RbFault<X>>)
    requires
        rb_askable(*ask),
    ensures
        forall|w: RbWorld<V, X>| #[trigger] rb_models(*ask, w) ==> (match out {
            Ok(s) => Ok(s@),
            Err(e) => Err(e),
        }) == rb_key(w, k),
{
    let s = if ask_is(ask, k, RbTest::String) {
        k
    } else {
        match ask_to_s(ask, k) {
            Ok(s) => s,
            Err(x) => {
                return Err(RbFault::Raised(x));
            },
        }
    };
    if !ask_is(ask, s, RbTest::String) {
        return Err(RbFault::Refused(RbRefusal::KeyText));
    }
    match utf8_text(ask_bytes(ask, s)) {
        Some(text) => Ok(text),
        None => Err(RbFault::Refused(RbRefusal::KeyBytes)),
    }
}

/// What a value or a fault says.
pub open spec fn told_tree<X>(out: Result<JsVal, RbFault<X>>) -> Result<JsTree, RbFault<X>> {
    match out {
        Ok(val) => Ok(val.tree()),
        Err(e) => Err(e),
    }
}

/// What reading has yielded: this result, with these objects written out.
pub open spec fn yielded<X>(
    out: Result<JsVal, RbFault<X>>,
    seen: Seq<usize>,
) -> RbYield<JsTree, X> {
    match out {
        Ok(val) => Ok((val.tree(), seen)),
        Err(e) => Err(e),
    }
}

/// Reads a Ruby value.
pub fn ruby_to_jsval<V: Copy, X, F: Fn(RbAsk<V>) -> RbTold<V, X>>(ask: &F, v: V) -> (out: Result<JsVal, RbFault<X>>)
    requires
        rb_askable(*ask),
    ensures
        out matches Ok(val) ==> exists|ids: nat| #[trigger] numbered(val.tree(), 0, ids, 0),
        forall|w: RbWorld<V, X>| #[trigger] rb_models(*ask, w) ==> told_tree(out) == rb_tree(w, v),
{
    let mut seen: RbSeen = RbSeen::new();
    ruby_to_jsval_d(ask, v, &mut seen, 0)
}

/// Reads a Ruby value that stands `depth` containers deep.
pub fn ruby_to_jsval_d<V: Copy, X, F: Fn(RbAsk<V>) -> RbTold<V, X>>(
    ask: &F,
    v: V,
    seen: &mut RbSeen,
    depth: u32,
) -> (out: Result<JsVal, RbFault<X>>)
    requires
        rb_askable(*ask),
        old(seen).wf(),
        depth <= MAX_MARSHAL_DEPTH,
    ensures
        final(seen).wf(),
        out matches Ok(val) ==> numbered(
            val.tree(),
            old(seen)@.len(),
            final(seen)@.len(),
            depth as nat,
        ),
        forall|w: RbWorld<V, X>| #[trigger] rb_models(*ask, w) ==> yielded(out, final(seen)@)
            == rb_value(w, v, old(seen)@, depth as nat),
    decreases MAX_MARSHAL_DEPTH - depth, 4nat, 0nat,
{
    if ask_is(ask, v, RbTest::Nil) {
        return Ok(JsVal::Null);
    }
    if ask_is(ask, v, RbTest::True) {
        return Ok(JsVal::Bool(true));
    }
    if ask_is(ask, v, RbTest::False) {
        return Ok(JsVal::Bool(false));
    }
    if ask_is(ask, v, RbTest::Time) {
        return match ask_millis(ask, v) {
            Ok(ms) => Ok(JsVal::Date(ms)),
            Err(x) => Err(RbFault::Raised(x)),
        };
    }
    if ask_is(ask, v, RbTest::Integer) {
        return integer_to_jsval(ask, v);
    }
    if let Some(n) = ask_float(ask, v) {
        return Ok(JsVal::Num(n));
    }
    if ask_is(ask, v, RbTest::Symbol) {
        return match ask_symbol_name(ask, v) {
            Some(name) => Ok(JsVal::Str(name)),
            None => Err(RbFault::Refused(RbRefusal::SymbolName)),
        };
    }
    if ask_is(ask, v, RbTest::String) {
        if ask_encoding(ask, v) == RbEncoding::Binary {
            // Bytes hold no values, so they are never cut off, however deep they stand.
            return match rb_container_id(ask, seen, v, 0) {
                Ok(RbId::New(id)) => Ok(JsVal::Bytes { id: Some(id), bytes: ask_bytes(ask, v) }),
                Ok(RbId::Reuse(val)) => Ok(val),
                Err(e) => Err(e),
            };
        }
        return string_to_jsval(ask, v);
    }
    if ask_is(ask, v, RbTest::StringLike) {
        let s = match ask_to_str(ask, v) {
            Ok(s) => s,
            Err(x) => {
                return Err(RbFault::Raised(x));
            },
        };
        if ask_is(ask, s, RbTest::String) {
            return string_to_jsval(ask, s);
        }
    }
    rb_read_container(ask, v, seen, depth)
}

/// What kind of container a value is.
fn rb_shape_of<V: Copy, X, F: Fn(RbAsk<V>) -> RbTold<V, X>>(ask: &F, v: V) -> (shape: RbShape<V>)
    requires
        rb_askable(*ask),
    ensures
        forall|w: RbWorld<V, X>| #[trigger] rb_models(*ask, w) ==> shape == rb_shape(w, v),
{
    if ask_is(ask, v, RbTest::SetObject) {
        return RbShape::SetObject;
    }
    if let Some(array) = ask_array_of(ask, v) {
        return RbShape::Array(array);
    }
    if ask_is(ask, v, RbTest::JsMap) {
        return RbShape::JsMap;
    }
    if let Some(hash) = ask_hash_of(ask, v) {
        return RbShape::Hash(hash);
    }
    RbShape::Unknown
}

/// Reads a value that can only be a container.
fn rb_read_container<V: Copy, X, F: Fn(RbAsk<V>) -> RbTold<V, X>>(
    ask: &F,
    v: V,
    seen: &mut RbSeen,
    depth: u32,
) -> (out: Result<JsVal, RbFault<X>>)
    requires
        rb_askable(*ask),
        old(seen).wf(),
        depth <= MAX_MARSHAL_DEPTH,
    ensures
        final(seen).wf(),
        out matches Ok(val) ==> numbered(
            val.tree(),
            old(seen)@.len(),
            final(seen)@.len(),
            depth as nat,
        ),
        forall|w: RbWorld<V, X>| #[trigger] rb_models(*ask, w) ==> yielded(out, final(seen)@)
            == rb_container(w, v, old(seen)@, depth as nat),
    decreases MAX_MARSHAL_DEPTH - depth, 3nat, 0nat,
{
    let shape = rb_shape_of(ask, v);
    if let RbShape::Unknown = shape {
        return Err(RbFault::Refused(RbRefusal::Unsupported));
    }
    let id: usize = match rb_container_id(ask, seen, v, depth) {
        Ok(RbId::New(id)) => id,
        Ok(RbId::Reuse(val)) => {
            return Ok(val);
        },
        Err(e) => {
            return Err(e);
        },
    };
    let out = match shape {
        RbShape::SetObject => {
            let list = match ask_to_a(ask, v) {
                Ok(list) => list,
                Err(x) => {
                    return Err(RbFault::Raised(x));
                },
            };
            let n: usize = ask_len(ask, list);
            match rb_read_items(ask, list, n, seen, depth) {
                Ok(items) => JsVal::JsSet { id, items },
                Err(e) => {
                    return Err(e);
                },
            }
        },
        RbShape::Array(list) => {
            let n: usize = ask_len(ask, list);
            match rb_read_items(ask, list, n, seen, depth) {
                Ok(items) => JsVal::Array { id, items },
                Err(e) => {
                    return Err(e);
                },
            }
        },
        RbShape::JsMap => {
            let (way, n): (V, usize) = match ask_pairs(ask, v) {
                Ok(begun) => begun,
                Err(x) => {
                    return Err(RbFault::Raised(x));
                },
            };
            let read = rb_read_pairs(ask, way, n, seen, depth);
            ask(RbAsk::End(way));
            match read {
                Ok(pairs) => JsVal::JsMap { id, pairs },
                Err(e) => {
                    return Err(e);
                },
            }
        },
        RbShape::Hash(hash) => {
            let (way, n): (V, usize) = match ask_pairs(ask, hash) {
                Ok(begun) => begun,
                Err(x) => {
                    return Err(RbFault::Raised(x));
                },
            };
            let read = rb_read_entries(ask, way, n, seen, depth);
            ask(RbAsk::End(way));
            match read {
                Ok(entries) => JsVal::Obj { id, entries },
                Err(e) => {
                    return Err(e);
                },
            }
        },
        RbShape::Unknown => {
            return Err(RbFault::Refused(RbRefusal::Unsupported));
        },
    };
    proof {
        lemma_container_trees(out);
    }
    Ok(out)
}

/// Once reading has gone wrong it stays so.
proof fn lemma_rb_items_stop<V, X>(
    w: RbWorld<V, X>,
    list: V,
    at: nat,
    n: nat,
    seen: Seq<usize>,
    depth: nat,
)
    requires
        at <= n,
        rb_items(w, list, at, seen, depth) is Err,
    ensures
        rb_items(w, list, n, seen, depth) == rb_items(w, list, at, seen, depth),
    decreases n - at,
{
    if at < n {
        lemma_rb_items_stop(w, list, at + 1, n, seen, depth);
    }
}

/// Once reading has gone wrong, or the way has ended, it stays so.
proof fn lemma_rb_pairs_stop<V, X>(
    w: RbWorld<V, X>,
    way: V,
    at: nat,
    n: nat,
    seen: Seq<usize>,
    depth: nat,
)
    requires
        at <= n,
        rb_pairs(w, way, at, seen, depth) matches Ok((all, _)) ==> all.len() < at,
    ensures
        rb_pairs(w, way, n, seen, depth) == rb_pairs(w, way, at, seen, depth),
    decreases n - at,
{
    if at < n {
        lemma_rb_pairs_stop(w, way, at + 1, n, seen, depth);
    }
}

/// Once reading has gone wrong, or the way has ended, it stays so.
proof fn lemma_rb_entries_stop<V, X>(
    w: RbWorld<V, X>,
    way: V,
    at: nat,
    n: nat,
    seen: Seq<usize>,
    depth: nat,
)
    requires
        at <= n,
        rb_entries(w, way, at, seen, depth) matches Ok((all, _)) ==> all.len() < at,
    ensures
        rb_entries(w, way, n, seen, depth) == rb_entries(w, way, at, seen, depth),
    decreases n - at,
{
    if at < n {
        lemma_rb_entries_stop(w, way, at + 1, n, seen, depth);
    }
}

/// Where the way through a hash ends, the hash ends: what had been met by then is
/// all that is read, however many pairs the hash had when the way began. So a pair
/// that is deleted on the way, before it is met, is left out.
pub proof fn law_hash_ends_with_its_way<V, X>(
    w: RbWorld<V, X>,
    way: V,
    at: usize,
    n: usize,
    seen: Seq<usize>,
    depth: nat,
)
    requires
        at <= n,
        (w.pair)(way, at) == Ok::<Option<(V, V)>, X>(None),
    ensures
        rb_pairs(w, way, n as nat, seen, depth) == rb_pairs(w, way, at as nat, seen, depth),
        rb_entries(w, way, n as nat, seen, depth) == rb_entries(w, way, at as nat, seen, depth),
        rb_entries(w, way, n as nat, seen, depth) matches Ok((all, _)) ==> all.len() <= at,
        rb_pairs(w, way, n as nat, seen, depth) matches Ok((all, _)) ==> all.len() <= at,
{
    lemma_rb_few(w, way, at as nat, seen, depth);
    if at < n {
        if let Ok((_, mid)) = rb_pairs(w, way, at as nat, seen, depth) {
            assert(rb_pair(w, way, at as nat, mid, depth) is Ok);
        }
        if let Ok((_, mid)) = rb_entries(w, way, at as nat, seen, depth) {
            assert(rb_entry(w, way, at as nat, mid, depth) is Ok);
        }
        lemma_rb_pairs_stop(w, way, at as nat + 1, n as nat, seen, depth);
        lemma_rb_entries_stop(w, way, at as nat + 1, n as nat, seen, depth);
    }
}

/// No more is read than was asked for.
proof fn lemma_rb_few<V, X>(w: RbWorld<V, X>, way: V, n: nat, seen: Seq<usize>, depth: nat)
    ensures
        rb_entries(w, way, n, seen, depth) matches Ok((all, _)) ==> all.len() <= n,
        rb_pairs(w, way, n, seen, depth) matches Ok((all, _)) ==> all.len() <= n,
    decreases n,
{
    if n > 0 {
        lemma_rb_few(w, way, (n - 1) as nat, seen, depth);
    }
}

/// Reads a value that stands in a container.
fn rb_read_child<V: Copy, X, F: Fn(RbAsk<V>) -> RbTold<V, X>>(
    ask: &F,
    v: V,
    seen: &mut RbSeen,
    depth: u32,
) -> (out: Result<JsVal, RbFault<X>>)
    requires
        rb_askable(*ask),
        old(seen).wf(),
        depth < MAX_MARSHAL_DEPTH,
    ensures
        final(seen).wf(),
        out matches Ok(val) ==> numbered(
            val.tree(),
            old(seen)@.len(),
            final(seen)@.len(),
            depth as nat + 1,
        ),
        forall|w: RbWorld<V, X>| #[trigger] rb_models(*ask, w) ==> yielded(out, final(seen)@)
            == rb_child(w, v, old(seen)@, depth as nat),
    decreases MAX_MARSHAL_DEPTH - depth, 0nat, 0nat,
{
    ruby_to_jsval_d(ask, v, seen, depth + 1)
}

/// Reads one element of an array.
fn rb_read_item<V: Copy, X, F: Fn(RbAsk<V>) -> RbTold<V, X>>(
    ask: &F,
    list: V,
    i: usize,
    seen: &mut RbSeen,
    depth: u32,
) -> (out: Result<JsVal, RbFault<X>>)
    requires
        rb_askable(*ask),
        old(seen).wf(),
        depth < MAX_MARSHAL_DEPTH,
    ensures
        final(seen).wf(),
        out matches Ok(one) ==> numbered(
            one.tree(),
            old(seen)@.len(),
            final(seen)@.len(),
            depth as nat + 1,
        ),
        forall|w: RbWorld<V, X>| #[trigger] rb_models(*ask, w) ==> (match out {
            Ok(one) => Ok((one.tree(), final(seen)@)),
            Err(e) => Err(e),
        }) == rb_item(w, list, i as nat, old(seen)@, depth as nat),
    decreases MAX_MARSHAL_DEPTH - depth, 1nat, 0nat,
{
    match ask_entry(ask, list, i) {
        Ok(v) => rb_read_child(ask, v, seen, depth),
        Err(x) => Err(RbFault::Raised(x)),
    }
}

/// Reads the next pair on the way through a hash.
fn rb_read_pair<V: Copy, X, F: Fn(RbAsk<V>) -> RbTold<V, X>>(
    ask: &F,
    way: V,
    i: usize,
    seen: &mut RbSeen,
    depth: u32,
) -> (out: Result<Option<(JsVal, JsVal)>, RbFault<X>>)
    requires
        rb_askable(*ask),
        old(seen).wf(),
        depth < MAX_MARSHAL_DEPTH,
    ensures
        final(seen).wf(),
        match out {
            Ok(Some(one)) => exists|mid: nat|
                #![trigger so_far(mid)]
                so_far(mid) && numbered(one.0.tree(), old(seen)@.len(), mid, depth as nat + 1)
                    && numbered(one.1.tree(), mid, final(seen)@.len(), depth as nat + 1),
            Ok(None) => final(seen)@ == old(seen)@,
            Err(_) => true,
        },
        forall|w: RbWorld<V, X>| #[trigger] rb_models(*ask, w) ==> (match out {
            Ok(Some(one)) => Ok((Some((one.0.tree(), one.1.tree())), final(seen)@)),
            Ok(None) => Ok((None, final(seen)@)),
            Err(e) => Err(e),
        }) == rb_pair(w, way, i as nat, old(seen)@, depth as nat),
    decreases MAX_MARSHAL_DEPTH - depth, 1nat, 0nat,
{
    let (k, v) = match ask_pair(ask, way, i) {
        Ok(Some(pair)) => pair,
        Ok(None) => {
            return Ok(None);
        },
        Err(x) => {
            return Err(RbFault::Raised(x));
        },
    };
    let key = match rb_read_child(ask, k, seen, depth) {
        Ok(key) => key,
        Err(e) => {
            return Err(e);
        },
    };
    assert(so_far(seen@.len()));
    match rb_read_child(ask, v, seen, depth) {
        Ok(val) => Ok(Some((key, val))),
        Err(e) => Err(e),
    }
}

/// Reads the next entry on the way through a hash.
fn rb_read_entry<V: Copy, X, F: Fn(RbAsk<V>) -> RbTold<V, X>>(
    ask: &F,
    way: V,
    i: usize,
    seen: &mut RbSeen,
    depth: u32,
) -> (out: Result<Option<(String, JsVal)>, RbFault<X>>)
    requires
        rb_askable(*ask),
        old(seen).wf(),
        depth < MAX_MARSHAL_DEPTH,
    ensures
        final(seen).wf(),
        match out {
            Ok(Some(one)) => numbered(
                one.1.tree(),
                old(seen)@.len(),
                final(seen)@.len(),
                depth as nat + 1,
            ),
            Ok(None) => final(seen)@ == old(seen)@,
            Err(_) => true,
        },
        forall|w: RbWorld<V, X>| #[trigger] rb_models(*ask, w) ==> (match out {
            Ok(Some(one)) => Ok((Some((one.0@, one.1.tree())), final(seen)@)),
            Ok(None) => Ok((None, final(seen)@)),
            Err(e) => Err(e),
        }) == rb_entry(w, way, i as nat, old(seen)@, depth as nat),
    decreases MAX_MARSHAL_DEPTH - depth, 1nat, 0nat,
{
    let (k, v) = match ask_pair(ask, way, i) {
        Ok(Some(pair)) => pair,
        Ok(None) => {
            return Ok(None);
        },
        Err(x) => {
            return Err(RbFault::Raised(x));
        },
    };
    let key = match string_key(ask, k) {
        Ok(key) => key,
        Err(e) => {
            return Err(e);
        },
    };
    match rb_read_child(ask, v, seen, depth) {
        Ok(val) => Ok(Some((key, val))),
        Err(e) => Err(e),
    }
}

/// Reads the first `n` elements of an array.
fn rb_read_items<V: Copy, X, F: Fn(RbAsk<V>) -> RbTold<V, X>>(
    ask: &F,
    list: V,
    n: usize,
    seen: &mut RbSeen,
    depth: u32,
) -> (out: Result<Vec<JsVal>, RbFault<X>>)
    requires
        rb_askable(*ask),
        old(seen).wf(),
        depth < MAX_MARSHAL_DEPTH,
    ensures
        final(seen).wf(),
        out matches Ok(items) ==> all_numbered(
            trees(items@),
            old(seen)@.len(),
            final(seen)@.len(),
            depth as nat + 1,
        ),
        forall|w: RbWorld<V, X>| #[trigger] rb_models(*ask, w) ==> (match out {
            Ok(items) => Ok((trees(items@), final(seen)@)),
            Err(e) => Err(e),
        }) == rb_items(w, list, n as nat, old(seen)@, depth as nat),
    decreases MAX_MARSHAL_DEPTH - depth, 2nat, 0nat,
{
    let mut items: Vec<JsVal> = Vec::new();
    let mut i: usize = 0;
    assert(trees(items@) =~= seq![]);
    while i < n
        invariant
            rb_askable(*ask),
            seen.wf(),
            depth < MAX_MARSHAL_DEPTH,
            i <= n,
            all_numbered(trees(items@), old(seen)@.len(), seen@.len(), depth as nat + 1),
            forall|w: RbWorld<V, X>| #[trigger] rb_models(*ask, w) ==> rb_items(
                w,
                list,
                i as nat,
                old(seen)@,
                depth as nat,
            ) == Ok::<_, RbFault<X>>((trees(items@), seen@)),
        decreases n - i,
    {
        let ghost before = items@;
        let ghost mid = seen@.len();
        match rb_read_item(ask, list, i, seen, depth) {
            Ok(one) => {
                items.push(one);
                assert(trees(items@) =~= trees(before).push(one.tree()));
                proof {
                    lemma_all_numbered_push(
                        trees(before),
                        one.tree(),
                        old(seen)@.len(),
                        mid,
                        seen@.len(),
                        depth as nat + 1,
                    );
                }
            },
            Err(e) => {
                proof {
                    assert forall|w: RbWorld<V, X>| #[trigger] rb_models(*ask, w) implies rb_items(
                        w,
                        list,
                        n as nat,
                        old(seen)@,
                        depth as nat,
                    ) == Err::<(Seq<JsTree>, Seq<usize>), RbFault<X>>(e) by {
                        lemma_rb_items_stop(w, list, i as nat + 1, n as nat, old(seen)@, depth as nat);
                    }
                }
                return Err(e);
            },
        }
        i = i + 1;
    }
    Ok(items)
}

/// Reads the pairs on the way through a hash, `n` at most.
fn rb_read_pairs<V: Copy, X, F: Fn(RbAsk<V>) -> RbTold<V, X>>(
    ask: &F,
    way: V,
    n: usize,
    seen: &mut RbSeen,
    depth: u32,
) -> (out: Result<Vec<(JsVal, JsVal)>, RbFault<X>>)
    requires
        rb_askable(*ask),
        old(seen).wf(),
        depth < MAX_MARSHAL_DEPTH,
    ensures
        final(seen).wf(),
        out matches Ok(pairs) ==> pairs_numbered(
            pair_trees(pairs@),
            old(seen)@.len(),
            final(seen)@.len(),
            depth as nat + 1,
        ),
        forall|w: RbWorld<V, X>| #[trigger] rb_models(*ask, w) ==> (match out {
            Ok(pairs) => Ok((pair_trees(pairs@), final(seen)@)),
            Err(e) => Err(e),
        }) == rb_pairs(w, way, n as nat, old(seen)@, depth as nat),
    decreases MAX_MARSHAL_DEPTH - depth, 2nat, 0nat,
{
    let mut pairs: Vec<(JsVal, JsVal)> = Vec::new();
    let mut i: usize = 0;
    assert(pair_trees(pairs@) =~= seq![]);
    while i < n
        invariant
            rb_askable(*ask),
            seen.wf(),
            depth < MAX_MARSHAL_DEPTH,
            i <= n,
            pairs@.len() == i,
            pairs_numbered(pair_trees(pairs@), old(seen)@.len(), seen@.len(), depth as nat + 1),
            forall|w: RbWorld<V, X>| #[trigger] rb_models(*ask, w) ==> rb_pairs(
                w,
                way,
                i as nat,
                old(seen)@,
                depth as nat,
            ) == Ok::<_, RbFault<X>>((pair_trees(pairs@), seen@)),
        decreases n - i,
    {
        let ghost before = pairs@;
        let ghost mid = seen@.len();
        match rb_read_pair(ask, way, i, seen, depth) {
            Ok(None) => {
                proof {
                    assert forall|w: RbWorld<V, X>| #[trigger] rb_models(*ask, w) implies rb_pairs(
                        w,
                        way,
                        n as nat,
                        old(seen)@,
                        depth as nat,
                    ) == Ok::<_, RbFault<X>>((pair_trees(pairs@), seen@)) by {
                        lemma_rb_pairs_stop(w, way, i as nat + 1, n as nat, old(seen)@, depth as nat);
                    }
                }
                return Ok(pairs);
            },
            Ok(Some(one)) => {
                pairs.push(one);
                assert(pair_trees(pairs@) =~= pair_trees(before).push((one.0.tree(), one.1.tree())));
                proof {
                    let end = choose|end: nat|
                        #![trigger so_far(end)]
                        so_far(end) && numbered(one.0.tree(), mid, end, depth as nat + 1) && numbered(
                            one.1.tree(),
                            end,
                            seen@.len(),
                            depth as nat + 1,
                        );
                    lemma_pairs_numbered_push(
                        pair_trees(before),
                        (one.0.tree(), one.1.tree()),
                        old(seen)@.len(),
                        mid,
                        end,
                        seen@.len(),
                        depth as nat + 1,
                    );
                }
            },
            Err(e) => {
                proof {
                    assert forall|w: RbWorld<V, X>| #[trigger] rb_models(*ask, w) implies rb_pairs(
                        w,
                        way,
                        n as nat,
                        old(seen)@,
                        depth as nat,
                    ) == Err::<(Seq<(JsTree, JsTree)>, Seq<usize>), RbFault<X>>(e) by {
                        lemma_rb_pairs_stop(w, way, i as nat + 1, n as nat, old(seen)@, depth as nat);
                    }
                }
                return Err(e);
            },
        }
        i = i + 1;
    }
    Ok(pairs)
}

/// Reads the entries on the way through a hash, `n` at most.
fn rb_read_entries<V: Copy, X, F: Fn(RbAsk<V>) -> RbTold<V, X>>(
    ask: &F,
    way: V,
    n: usize,
    seen: &mut RbSeen,
    depth: u32,
) -> (out: Result<Vec<(String, JsVal)>, RbFault<X>>)
    requires
        rb_askable(*ask),
        old(seen).wf(),
        depth < MAX_MARSHAL_DEPTH,
    ensures
        final(seen).wf(),
        out matches Ok(entries) ==> entries_numbered(
            entry_trees(entries@),
            old(seen)@.len(),
            final(seen)@.len(),
            depth as nat + 1,
        ),
        forall|w: RbWorld<V, X>| #[trigger] rb_models(*ask, w) ==> (match out {
            Ok(entries) => Ok((entry_trees(entries@), final(seen)@)),
            Err(e) => Err(e),
        }) == rb_entries(w, way, n as nat, old(seen)@, depth as nat),
    decreases MAX_MARSHAL_DEPTH - depth, 2nat, 0nat,
{
    let mut entries: Vec<(String, JsVal)> = Vec::new();
    let mut i: usize = 0;
    assert(entry_trees(entries@) =~= seq![]);
    while i < n
        invariant
            rb_askable(*ask),
            seen.wf(),
            depth < MAX_MARSHAL_DEPTH,
            i <= n,
            entries@.len() == i,
            entries_numbered(entry_trees(entries@), old(seen)@.len(), seen@.len(), depth as nat + 1),
            forall|w: RbWorld<V, X>| #[trigger] rb_models(*ask, w) ==> rb_entries(
                w,
                way,
                i as nat,
                old(seen)@,
                depth as nat,
            ) == Ok::<_, RbFault<X>>((entry_trees(entries@), seen@)),
        decreases n - i,
    {
        let ghost before = entries@;
        let ghost mid = seen@.len();
        match rb_read_entry(ask, way, i, seen, depth) {
            Ok(None) => {
                proof {
                    assert forall|w: RbWorld<V, X>| #[trigger] rb_models(*ask, w) implies rb_entries(
                        w,
                        way,
                        n as nat,
                        old(seen)@,
                        depth as nat,
                    ) == Ok::<_, RbFault<X>>((entry_trees(entries@), seen@)) by {
                        lemma_rb_entries_stop(w, way, i as nat + 1, n as nat, old(seen)@, depth as nat);
                    }
                }
                return Ok(entries);
            },
            Ok(Some(one)) => {
                entries.push(one);
                assert(entry_trees(entries@) =~= entry_trees(before).push((one.0@, one.1.tree())));
                proof {
                    lemma_entries_numbered_push(
                        entry_trees(before),
                        (one.0@, one.1.tree()),
                        old(seen)@.len(),
                        mid,
                        seen@.len(),
                        depth as nat + 1,
                    );
                }
            },
            Err(e) => {
                proof {
                    assert forall|w: RbWorld<V, X>| #[trigger] rb_models(*ask, w) implies rb_entries(
                        w,
                        way,
                        n as nat,
                        old(seen)@,
                        depth as nat,
                    ) == Err::<(Seq<(Seq<char>, JsTree)>, Seq<usize>), RbFault<X>>(e) by {
                        lemma_rb_entries_stop(w, way, i as nat + 1, n as nat, old(seen)@, depth as nat);
                    }
                }
                return Err(e);
            },
        }
        i = i + 1;
    }
    Ok(entries)
}

/// A value that neither is text nor holds others crosses by the first of these kinds
/// that Ruby says it is of, with what Ruby says it holds: nil, true, false, a time,
/// an integer, whatever Ruby takes for a float, a symbol. It is never referred to.
/// What Ruby raises meanwhile comes through.
pub proof fn law_ruby_scalars_cross<V, X>(w: RbWorld<V, X>, v: V, seen: Seq<usize>, depth: nat)
    ensures
        ({
            let nil = (w.is)(v, RbTest::Nil);
            let singleton = nil || (w.is)(v, RbTest::True) || (w.is)(v, RbTest::False);
            let out = rb_value(w, v, seen, depth);
            &&& nil ==> out == Ok::<(JsTree, Seq<usize>), RbFault<X>>((JsTree::Null, seen))
            &&& !nil && (w.is)(v, RbTest::True) ==> out == Ok::<(JsTree, Seq<usize>), RbFault<X>>(
                (JsTree::Bool(true), seen),
            )
            &&& !nil && !(w.is)(v, RbTest::True) && (w.is)(v, RbTest::False) ==> out == Ok::<
                (JsTree, Seq<usize>),
                RbFault<X>,
            >((JsTree::Bool(false), seen))
            &&& !singleton && (w.is)(v, RbTest::Time) ==> match (w.millis)(v) {
                Ok(ms) => out == Ok::<(JsTree, Seq<usize>), RbFault<X>>((JsTree::Date(ms), seen)),
                Err(x) => out == Err::<(JsTree, Seq<usize>), RbFault<X>>(RbFault::Raised(x)),
            }
            &&& !singleton && !(w.is)(v, RbTest::Time) && !(w.is)(v, RbTest::Integer) ==> {
                &&& (w.float)(v) matches Some(n) ==> out == Ok::<(JsTree, Seq<usize>), RbFault<X>>(
                    (JsTree::Num(n), seen),
                )
                &&& (w.float)(v) is None && (w.is)(v, RbTest::Symbol) ==> match (w.symbol_name)(v) {
                    Some(name) => out == Ok::<(JsTree, Seq<usize>), RbFault<X>>(
                        (JsTree::Str(name), seen),
                    ),
                    None => out == Err::<(JsTree, Seq<usize>), RbFault<X>>(
                        RbFault::Refused(RbRefusal::SymbolName),
                    ),
                }
            }
        }),
{
}

/// An integer crosses as a plain number just if it lies between minus and plus two
/// to the fifty-third; any other crosses as a big integer, with its sign, and with
/// the limbs that its hexadecimal digits spell.
pub proof fn law_integers_stay_exact<V, X>(
    w: RbWorld<V, X>,
    v: V,
    seen: Seq<usize>,
    depth: nat,
    hex: Seq<char>,
    negative: bool,
)
    requires
        !(w.is)(v, RbTest::Nil) && !(w.is)(v, RbTest::True) && !(w.is)(v, RbTest::False),
        !(w.is)(v, RbTest::Time),
        (w.is)(v, RbTest::Integer),
        (w.hex)(v) == Ok::<Seq<char>, X>(hex),
        (w.negative)(v) == Ok::<bool, X>(negative),
    ensures
        ({
            let out = rb_value(w, v, seen, depth);
            if (w.small)(v) matches Some(i) && -0x20_0000_0000_0000 <= i <= 0x20_0000_0000_0000 {
                out == Ok::<(JsTree, Seq<usize>), RbFault<X>>((JsTree::Int((w.small)(v)->0), seen))
            } else {
                out == Ok::<(JsTree, Seq<usize>), RbFault<X>>(
                    (
                        JsTree::BigInt {
                            negative,
                            words: hex_words(vstd::utf8::encode_utf8(hex)),
                        },
                        seen,
                    ),
                )
            }
        }),
{
}

/// A string that is tagged binary crosses as its bytes, however deep it stands,
/// under the next id, or as a reference if it was met before. Any other crosses as
/// text, transcoded unless it is tagged UTF-8; it is an error if that text is not
/// valid.
pub proof fn law_strings_cross_by_their_tag<V, X>(
    w: RbWorld<V, X>,
    v: V,
    seen: Seq<usize>,
    depth: nat,
    oid: usize,
)
    requires
        !(w.is)(v, RbTest::Nil) && !(w.is)(v, RbTest::True) && !(w.is)(v, RbTest::False),
        !(w.is)(v, RbTest::Time) && !(w.is)(v, RbTest::Integer),
        (w.float)(v) is None,
        !(w.is)(v, RbTest::Symbol),
        (w.is)(v, RbTest::String),
        (w.object_id)(v) == Ok::<usize, X>(oid),
    ensures
        ({
            let out = rb_value(w, v, seen, depth);
            &&& (w.encoding)(v) is Binary && !seen.contains(oid) ==> out == Ok::<
                (JsTree, Seq<usize>),
                RbFault<X>,
            >((JsTree::Bytes { id: Some(seen.len()), bytes: (w.bytes)(v) }, seen.push(oid)))
            &&& (w.encoding)(v) is Binary && seen.contains(oid) ==> (out matches Ok(
                (JsTree::Ref(j), after),
            ) && after == seen && j < seen.len() && seen[j as int] == oid)
            &&& (w.encoding)(v) is Utf8 ==> match utf8_of((w.bytes)(v)) {
                Some(text) => out == Ok::<(JsTree, Seq<usize>), RbFault<X>>(
                    (JsTree::Str(text), seen),
                ),
                None => out == Err::<(JsTree, Seq<usize>), RbFault<X>>(
                    RbFault::Refused(RbRefusal::TextBytes),
                ),
            }
            &&& (w.encoding)(v) is Other ==> match (w.encode)(v) {
                Ok(s) => match utf8_of((w.bytes)(s)) {
                    Some(text) => out == Ok::<(JsTree, Seq<usize>), RbFault<X>>(
                        (JsTree::Str(text), seen),
                    ),
                    None => out == Err::<(JsTree, Seq<usize>), RbFault<X>>(
                        RbFault::Refused(RbRefusal::TextBytes),
                    ),
                },
                Err(x) => out == Err::<(JsTree, Seq<usize>), RbFault<X>>(RbFault::Raised(x)),
            }
        }),
{
    if seen.contains(oid) {
        let j = seen.index_of(oid);
        assert(0 <= j < seen.len() && seen[j] == oid);
    }
}

/// What turns itself into a string crosses as that string would, but takes no id,
/// as the string is gone at once. If what it turns itself into is no string, it
/// crosses as the container that it is.
pub proof fn law_string_likes_cross_as_strings<V, X>(
    w: RbWorld<V, X>,
    v: V,
    seen: Seq<usize>,
    depth: nat,
    s: V,
)
    requires
        !(w.is)(v, RbTest::Nil) && !(w.is)(v, RbTest::True) && !(w.is)(v, RbTest::False),
        !(w.is)(v, RbTest::Time) && !(w.is)(v, RbTest::Integer),
        (w.float)(v) is None,
        !(w.is)(v, RbTest::Symbol),
        !(w.is)(v, RbTest::String),
        (w.is)(v, RbTest::StringLike),
        (w.to_str)(v) == Ok::<V, X>(s),
    ensures
        ({
            let out = rb_value(w, v, seen, depth);
            &&& !(w.is)(s, RbTest::String) ==> out == rb_container(w, v, seen, depth)
            &&& (w.is)(s, RbTest::String) && (w.encoding)(s) is Binary ==> out == Ok::<
                (JsTree, Seq<usize>),
                RbFault<X>,
            >((JsTree::Bytes { id: None, bytes: (w.bytes)(s) }, seen))
            &&& (w.is)(s, RbTest::String) && (w.encoding)(s) is Utf8 ==> match utf8_of(
                (w.bytes)(s),
            ) {
                Some(text) => out == Ok::<(JsTree, Seq<usize>), RbFault<X>>(
                    (JsTree::Str(text), seen),
                ),
                None => out == Err::<(JsTree, Seq<usize>), RbFault<X>>(
                    RbFault::Refused(RbRefusal::TextBytes),
                ),
            }
        }),
{
}

/// A hash key is the text that its bytes spell; a key that is no string is the text
/// of its `to_s`. Bytes that are no valid text, and a `to_s` that gives no string,
/// are errors.
pub proof fn law_keys_are_text<V, X>(w: RbWorld<V, X>, k: V, s: V)
    requires
        if (w.is)(k, RbTest::String) {
            s == k
        } else {
            (w.to_s)(k) == Ok::<V, X>(s)
        },
    ensures
        (w.is)(s, RbTest::String) ==> match utf8_of((w.bytes)(s)) {
            Some(text) => rb_key(w, k) == Ok::<Seq<char>, RbFault<X>>(text),
            None => rb_key(w, k) == Err::<Seq<char>, RbFault<X>>(
                RbFault::Refused(RbRefusal::KeyBytes),
            ),
        },
        !(w.is)(s, RbTest::String) ==> rb_key(w, k) == Err::<Seq<char>, RbFault<X>>(
            RbFault::Refused(RbRefusal::KeyText),
        ),
{
}

/// A value that holds others crosses by the first of these kinds that it is of, one
/// level deeper than itself and in order: a set by its elements, whatever Ruby takes
/// for an array, a map with its keys as they are, whatever Ruby takes for a hash
/// with its keys as text. It gets the next id before anything in it is read, or is
/// a reference if it was met before. Anything else does not cross.
pub proof fn law_ruby_containers_cross<V, X>(
    w: RbWorld<V, X>,
    v: V,
    seen: Seq<usize>,
    depth: nat,
    oid: usize,
)
    requires
        (w.object_id)(v) == Ok::<usize, X>(oid),
        !seen.contains(oid),
        depth < MAX_MARSHAL_DEPTH,
    ensures
        ({
            let out = rb_container(w, v, seen, depth);
            let opened = seen.push(oid);
            let id = seen.len();
            if (w.is)(v, RbTest::SetObject) {
                match (w.to_a)(v) {
                    Ok(list) => match rb_items(w, list, (w.len)(list) as nat, opened, depth) {
                        Ok((items, after)) => out == Ok::<(JsTree, Seq<usize>), RbFault<X>>(
                            (JsTree::JsSet { id, items }, after),
                        ),
                        Err(e) => out == Err::<(JsTree, Seq<usize>), RbFault<X>>(e),
                    },
                    Err(x) => out == Err::<(JsTree, Seq<usize>), RbFault<X>>(RbFault::Raised(x)),
                }
            } else if (w.array_of)(v) is Some {
                let list = (w.array_of)(v)->0;
                match rb_items(w, list, (w.len)(list) as nat, opened, depth) {
                    Ok((items, after)) => out == Ok::<(JsTree, Seq<usize>), RbFault<X>>(
                        (JsTree::Array { id, items }, after),
                    ),
                    Err(e) => out == Err::<(JsTree, Seq<usize>), RbFault<X>>(e),
                }
            } else if (w.is)(v, RbTest::JsMap) {
                match (w.pairs)(v) {
                    Ok((way, n)) => match rb_pairs(w, way, n as nat, opened, depth) {
                        Ok((pairs, after)) => out == Ok::<(JsTree, Seq<usize>), RbFault<X>>(
                            (JsTree::JsMap { id, pairs }, after),
                        ),
                        Err(e) => out == Err::<(JsTree, Seq<usize>), RbFault<X>>(e),
                    },
                    Err(x) => out == Err::<(JsTree, Seq<usize>), RbFault<X>>(RbFault::Raised(x)),
                }
            } else if (w.hash_of)(v) is Some {
                match (w.pairs)((w.hash_of)(v)->0) {
                    Ok((way, n)) => match rb_entries(w, way, n as nat, opened, depth) {
                        Ok((entries, after)) => out == Ok::<(JsTree, Seq<usize>), RbFault<X>>(
                            (JsTree::Obj { id, entries }, after),
                        ),
                        Err(e) => out == Err::<(JsTree, Seq<usize>), RbFault<X>>(e),
                    },
                    Err(x) => out == Err::<(JsTree, Seq<usize>), RbFault<X>>(RbFault::Raised(x)),
                }
            } else {
                out == Err::<(JsTree, Seq<usize>), RbFault<X>>(
                    RbFault::Refused(RbRefusal::Unsupported),
                )
            }
        }),
{
}

/// What is read is read in order: one element, pair or entry more is what came
/// before it and then that one, read one level deeper and with all that was met
/// before. What goes wrong with it is what the whole comes to.
pub proof fn law_contents_are_read_in_order<V, X>(
    w: RbWorld<V, X>,
    list: V,
    n: nat,
    seen: Seq<usize>,
    depth: nat,
)
    requires
        depth < MAX_MARSHAL_DEPTH,
    ensures
        rb_items(w, list, 0, seen, depth) == Ok::<(Seq<JsTree>, Seq<usize>), RbFault<X>>(
            (seq![], seen),
        ),
        rb_items(w, list, n, seen, depth) matches Ok((before, mid)) ==> match (w.entry)(
            list,
            n as usize,
        ) {
            Err(x) => rb_items(w, list, n + 1, seen, depth) == Err::<
                (Seq<JsTree>, Seq<usize>),
                RbFault<X>,
            >(RbFault::Raised(x)),
            Ok(v) => match rb_value(w, v, mid, depth + 1) {
                Err(e) => rb_items(w, list, n + 1, seen, depth) == Err::<
                    (Seq<JsTree>, Seq<usize>),
                    RbFault<X>,
                >(e),
                Ok((t, after)) => rb_items(w, list, n + 1, seen, depth) == Ok::<
                    (Seq<JsTree>, Seq<usize>),
                    RbFault<X>,
                >((before.push(t), after)),
            },
        },
        rb_pairs(w, list, n, seen, depth) matches Ok((before, mid)) ==> before.len() == n ==> match (
        w.pair)(list, n as usize) {
            Ok(Some((k, v))) => match rb_value(w, k, mid, depth + 1) {
                Err(e) => rb_pairs(w, list, n + 1, seen, depth) == Err::<
                    (Seq<(JsTree, JsTree)>, Seq<usize>),
                    RbFault<X>,
                >(e),
                Ok((key, keyed)) => match rb_value(w, v, keyed, depth + 1) {
                    Err(e) => rb_pairs(w, list, n + 1, seen, depth) == Err::<
                        (Seq<(JsTree, JsTree)>, Seq<usize>),
                        RbFault<X>,
                    >(e),
                    Ok((val, after)) => rb_pairs(w, list, n + 1, seen, depth) == Ok::<
                        (Seq<(JsTree, JsTree)>, Seq<usize>),
                        RbFault<X>,
                    >((before.push((key, val)), after)),
                },
            },
            Ok(None) => rb_pairs(w, list, n + 1, seen, depth) == rb_pairs(w, list, n, seen, depth),
            Err(x) => rb_pairs(w, list, n + 1, seen, depth) == Err::<
                (Seq<(JsTree, JsTree)>, Seq<usize>),
                RbFault<X>,
            >(RbFault::Raised(x)),
        },
        rb_entries(w, list, n, seen, depth) matches Ok((before, mid)) ==> before.len() == n
            ==> match (w.pair)(list, n as usize) {
            Ok(Some((k, v))) => match rb_key(w, k) {
                Err(e) => rb_entries(w, list, n + 1, seen, depth) == Err::<
                    (Seq<(Seq<char>, JsTree)>, Seq<usize>),
                    RbFault<X>,
                >(e),
                Ok(key) => match rb_value(w, v, mid, depth + 1) {
                    Err(e) => rb_entries(w, list, n + 1, seen, depth) == Err::<
                        (Seq<(Seq<char>, JsTree)>, Seq<usize>),
                        RbFault<X>,
                    >(e),
                    Ok((val, after)) => rb_entries(w, list, n + 1, seen, depth) == Ok::<
                        (Seq<(Seq<char>, JsTree)>, Seq<usize>),
                        RbFault<X>,
                    >((before.push((key, val)), after)),
                },
            },
            Ok(None) => rb_entries(w, list, n + 1, seen, depth) == rb_entries(
                w,
                list,
                n,
                seen,
                depth,
            ),
            Err(x) => rb_entries(w, list, n + 1, seen, depth) == Err::<
                (Seq<(Seq<char>, JsTree)>, Seq<usize>),
                RbFault<X>,
            >(RbFault::Raised(x)),
        },
{
    if let Ok((before, mid)) = rb_items(w, list, n, seen, depth) {
        assert(rb_item(w, list, n, mid, depth) is Ok || rb_item(w, list, n, mid, depth) is Err);
        if let Ok(v) = (w.entry)(list, n as usize) {
            assert(rb_child(w, v, mid, depth) == rb_value(w, v, mid, depth + 1));
        }
    }
    if let Ok((before, mid)) = rb_pairs(w, list, n, seen, depth) {
        assert(rb_pair(w, list, n, mid, depth) is Ok || rb_pair(w, list, n, mid, depth) is Err);
        if let Ok(Some((k, v))) = (w.pair)(list, n as usize) {
            assert(rb_child(w, k, mid, depth) == rb_value(w, k, mid, depth + 1));
            if let Ok((key, keyed)) = rb_child(w, k, mid, depth) {
                assert(rb_child(w, v, keyed, depth) == rb_value(w, v, keyed, depth + 1));
            }
        }
    }
    if let Ok((before, mid)) = rb_entries(w, list, n, seen, depth) {
        assert(rb_entry(w, list, n, mid, depth) is Ok || rb_entry(w, list, n, mid, depth) is Err);
        if let Ok(Some((k, v))) = (w.pair)(list, n as usize) {
            assert(rb_child(w, v, mid, depth) == rb_value(w, v, mid, depth + 1));
        }
    }
}

} // verus!
