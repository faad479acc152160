use std::cell::RefCell;

use rusty_racer::js_read::classify;
use rusty_racer::js_read::js_to_jsval;
use rusty_racer::js_read::JsAsk;
use rusty_racer::js_read::JsClass;
use rusty_racer::js_read::JsTests;
use rusty_racer::js_read::JsTold;
use rusty_racer::plan::jsval_to_js;
use rusty_racer::plan::jsval_to_ruby;
use rusty_racer::plan::Build;
use rusty_racer::plan::BuildOp;
use rusty_racer::rb_read::rb_container_id;
use rusty_racer::rb_read::ruby_to_jsval;
use rusty_racer::rb_read::RbAsk;
use rusty_racer::rb_read::RbEncoding;
use rusty_racer::rb_read::RbFault;
use rusty_racer::rb_read::RbId;
use rusty_racer::rb_read::RbRefusal;
use rusty_racer::rb_read::RbSeen;
use rusty_racer::rb_read::RbTest;
use rusty_racer::rb_read::RbTold;
use rusty_racer::value::JsVal;

const ROOMY: usize = 1 << 20;

// A script's values: each is an index into a heap.
#[derive(Clone)]
enum Js {
    Undefined,
    Null,
    Bool(bool),
    Int(i64),
    Num(u64),
    BigInt(bool, Vec<u64>),
    Date(u64),
    Text(String),
    Buffer(Vec<u8>),
    MapObject(Vec<(usize, usize)>),
    SetObject(Vec<usize>),
    Array(Vec<usize>),
    Object(Vec<(String, usize)>),
    Function(String),
    // An object whose names cannot be read.
    Opaque,
}

struct Heap {
    values: RefCell<Vec<Js>>,
}

impl Heap {
    fn new(values: Vec<Js>) -> Heap {
        Heap { values: RefCell::new(values) }
    }

    fn add(&self, value: Js) -> usize {
        self.values.borrow_mut().push(value);
        self.values.borrow().len() - 1
    }

    fn tests(&self, v: usize) -> JsTests {
        let mut t = JsTests {
            undefined: false,
            null: false,
            boolean: false,
            int32: false,
            number: false,
            big_int: false,
            date: false,
            array_buffer_view: false,
            array_buffer: false,
            shared_array_buffer: false,
            map: false,
            set: false,
            array: false,
            object: false,
            function: false,
        };
        match self.values.borrow()[v] {
            Js::Undefined => t.undefined = true,
            Js::Null => t.null = true,
            Js::Bool(_) => t.boolean = true,
            Js::Int(_) => {
                t.int32 = true;
                t.number = true;
            }
            Js::Num(_) => t.number = true,
            Js::BigInt(..) => t.big_int = true,
            Js::Date(_) => {
                t.date = true;
                t.object = true;
            }
            Js::Text(_) => {}
            Js::Buffer(_) => {
                t.array_buffer = true;
                t.object = true;
            }
            Js::MapObject(_) => {
                t.map = true;
                t.object = true;
            }
            Js::SetObject(_) => {
                t.set = true;
                t.object = true;
            }
            Js::Array(_) => {
                t.array = true;
                t.object = true;
            }
            Js::Object(_) | Js::Opaque => t.object = true,
            Js::Function(_) => {
                t.object = true;
                t.function = true;
            }
        }
        t
    }

    fn answer(&self, q: JsAsk<usize>) -> JsTold<usize> {
        let at = |v: usize| self.values.borrow()[v].clone();
        match q {
            JsAsk::Tests(v) => JsTold::Tests(self.tests(v)),
            JsAsk::Bool(v) => JsTold::Bool(matches!(at(v), Js::Bool(true))),
            JsAsk::Int(v) => match at(v) {
                Js::Int(n) => JsTold::Int(n),
                _ => JsTold::Int(0),
            },
            JsAsk::Num(v) => match at(v) {
                Js::Num(n) => JsTold::Num(n),
                _ => JsTold::Num(0),
            },
            JsAsk::BigInt(v) => match at(v) {
                Js::BigInt(negative, words) => JsTold::BigInt(negative, words),
                _ => JsTold::BigInt(false, vec![]),
            },
            JsAsk::Date(v) => match at(v) {
                Js::Date(ms) => JsTold::Date(ms),
                _ => JsTold::Date(0),
            },
            // Identity hashes collide on purpose.
            JsAsk::Hash(v) => JsTold::Hash((v % 2) as i32),
            JsAsk::Same(a, b) => JsTold::Same(a == b),
            JsAsk::Bytes(v, _) => match at(v) {
                Js::Buffer(bytes) => JsTold::Bytes(bytes),
                _ => JsTold::Bytes(vec![]),
            },
            JsAsk::Text(v) => match at(v) {
                Js::Text(s) | Js::Function(s) => JsTold::Text(s),
                Js::Array(_) => JsTold::Text("[array]".to_string()),
                _ => JsTold::Text("[object Object]".to_string()),
            },
            JsAsk::Elements(v, _) => {
                let items = match at(v) {
                    Js::Array(items) | Js::SetObject(items) => items,
                    Js::MapObject(pairs) => pairs.into_iter().flat_map(|(k, v)| [k, v]).collect(),
                    _ => vec![],
                };
                let n = items.len() as u32;
                JsTold::Elements(self.add(Js::Array(items)), n)
            }
            JsAsk::Item(v, i) => match at(v) {
                Js::Array(items) => JsTold::Item(items.get(i as usize).copied()),
                _ => JsTold::Item(None),
            },
            JsAsk::Names(v) => match at(v) {
                Js::Object(entries) => {
                    let names: Vec<usize> =
                        entries.iter().map(|(k, _)| self.add(Js::Text(k.clone()))).collect();
                    let n = names.len() as u32;
                    JsTold::Names(Some((self.add(Js::Array(names)), n)))
                }
                _ => JsTold::Names(None),
            },
            JsAsk::Get(v, k) => match (at(v), at(k)) {
                (Js::Object(entries), Js::Text(name)) => {
                    JsTold::Get(entries.iter().find(|(k, _)| *k == name).map(|(_, v)| *v))
                }
                _ => JsTold::Get(None),
            },
        }
    }

    fn read(&self, v: usize) -> JsVal {
        js_to_jsval(&|q: JsAsk<usize>| self.answer(q), v)
    }

    // Carries out a build in this heap.
    fn build(&self, build: Build) -> usize {
        let mut made: Vec<usize> = Vec::new();
        for op in build.ops {
            let v = match op {
                BuildOp::Make(val) => self.add(match val {
                    JsVal::Undefined => Js::Undefined,
                    JsVal::Null => Js::Null,
                    JsVal::Bool(b) => Js::Bool(b),
                    JsVal::Int(n) => Js::Int(n),
                    JsVal::Num(bits) => Js::Num(bits),
                    JsVal::Str(s) => Js::Text(s),
                    JsVal::Bytes { bytes, .. } => Js::Buffer(bytes),
                    JsVal::BigInt { negative, words } => Js::BigInt(negative, words),
                    JsVal::Date(ms) => Js::Date(ms),
                    _ => panic!("a container is not made whole"),
                }),
                BuildOp::MakeInteger { .. } => panic!("a script makes no such thing"),
                BuildOp::NewArray(n) => {
                    let hole = self.add(Js::Undefined);
                    self.add(Js::Array(vec![hole; n]))
                }
                BuildOp::NewObject => self.add(Js::Object(vec![])),
                BuildOp::NewMap => self.add(Js::MapObject(vec![])),
                BuildOp::NewSet => self.add(Js::SetObject(vec![])),
                BuildOp::SetIndex { array, index, value } => {
                    if let Js::Array(items) = &mut self.values.borrow_mut()[made[array]] {
                        items[index] = made[value];
                    }
                    0
                }
                BuildOp::SetKey { object, key, value } => {
                    if let Js::Object(entries) = &mut self.values.borrow_mut()[made[object]] {
                        entries.push((key, made[value]));
                    }
                    0
                }
                BuildOp::MapSet { map, key, value } => {
                    if let Js::MapObject(pairs) = &mut self.values.borrow_mut()[made[map]] {
                        pairs.push((made[key], made[value]));
                    }
                    0
                }
                BuildOp::SetAdd { set, value } => {
                    if let Js::SetObject(items) = &mut self.values.borrow_mut()[made[set]] {
                        items.push(made[value]);
                    }
                    0
                }
            };
            made.push(v);
        }
        made[build.root]
    }
}

#[test]
fn first_predicate_decides() {
    let heap = Heap::new(vec![Js::Int(3), Js::Function("f() {}".to_string()), Js::Date(0)]);
    assert_eq!(classify(heap.tests(0)), JsClass::Int);
    assert_eq!(classify(heap.tests(1)), JsClass::Text);
    assert_eq!(classify(heap.tests(2)), JsClass::Date);
}

#[test]
fn plain_values_cross() {
    let heap = Heap::new(vec![
        Js::Undefined,
        Js::Null,
        Js::Bool(true),
        Js::Int(-7),
        Js::Num(1.5f64.to_bits()),
        Js::BigInt(true, vec![1, 2]),
        Js::Date(86400000f64.to_bits()),
        Js::Text("h\u{e9}".to_string()),
        Js::Function("() => 1".to_string()),
    ]);
    assert_eq!(heap.read(0), JsVal::Undefined);
    assert_eq!(heap.read(1), JsVal::Null);
    assert_eq!(heap.read(2), JsVal::Bool(true));
    assert_eq!(heap.read(3), JsVal::Int(-7));
    assert_eq!(heap.read(4), JsVal::Num(1.5f64.to_bits()));
    assert_eq!(heap.read(5), JsVal::BigInt { negative: true, words: vec![1, 2] });
    assert_eq!(heap.read(6), JsVal::Date(86400000f64.to_bits()));
    assert_eq!(heap.read(7), JsVal::Str("h\u{e9}".to_string()));
    assert_eq!(heap.read(8), JsVal::Str("() => 1".to_string()));
}

// An object that holds a shared array twice, itself, a map and a set.
fn tangled() -> Heap {
    Heap::new(vec![
        Js::Object(vec![
            ("a".to_string(), 1),
            ("b".to_string(), 1),
            ("me".to_string(), 0),
            ("m".to_string(), 3),
            ("s".to_string(), 4),
            ("bytes".to_string(), 5),
        ]),
        Js::Array(vec![2, 2]),
        Js::Int(9),
        Js::MapObject(vec![(2, 0), (5, 2)]),
        Js::SetObject(vec![2, 1]),
        Js::Buffer(vec![0, 255]),
    ])
}

fn tangled_value() -> JsVal {
    JsVal::Obj {
        id: 0,
        entries: vec![
            ("a".to_string(), JsVal::Array { id: 1, items: vec![JsVal::Int(9), JsVal::Int(9)] }),
            ("b".to_string(), JsVal::Ref(1)),
            ("me".to_string(), JsVal::Ref(0)),
            (
                "m".to_string(),
                JsVal::JsMap {
                    id: 2,
                    pairs: vec![
                        (JsVal::Int(9), JsVal::Ref(0)),
                        (JsVal::Bytes { id: Some(3), bytes: vec![0, 255] }, JsVal::Int(9)),
                    ],
                },
            ),
            ("s".to_string(), JsVal::JsSet { id: 4, items: vec![JsVal::Int(9), JsVal::Ref(1)] }),
            ("bytes".to_string(), JsVal::Ref(3)),
        ],
    }
}

#[test]
fn shared_and_cyclic_objects_keep_their_identity() {
    assert_eq!(tangled().read(0), tangled_value());
}

#[test]
fn script_values_go_there_and_back() {
    let other = Heap::new(vec![]);
    let built = other.build(jsval_to_js(tangled().read(0), ROOMY));
    assert_eq!(other.read(built), tangled_value());
}

#[test]
fn objects_without_names_cross_as_text() {
    let heap = Heap::new(vec![Js::Opaque]);
    let text = || JsVal::Str("[object Object]".to_string());
    assert_eq!(heap.read(0), text());
    // They take no id, so nothing refers to them.
    let twice = Heap::new(vec![Js::Array(vec![1, 1, 2]), Js::Opaque, Js::Array(vec![])]);
    let inner = JsVal::Array { id: 1, items: vec![] };
    assert_eq!(twice.read(0), JsVal::Array { id: 0, items: vec![text(), text(), inner] });
}

#[test]
fn deep_nesting_is_cut_off() {
    let mut values = vec![Js::Array(vec![])];
    for i in 0..300 {
        values.push(Js::Array(vec![i]));
    }
    let heap = Heap::new(values);
    let mut val = heap.read(300);
    let mut depth = 0;
    while let JsVal::Array { mut items, .. } = val {
        depth += 1;
        val = items.pop().unwrap_or(JsVal::Undefined);
    }
    assert_eq!(depth, 256);
    assert_eq!(val, JsVal::Str("[array]".to_string()));
}

#[test]
fn strings_that_are_too_long_are_left_out() {
    let heap = Heap::new(vec![]);
    let value = JsVal::Obj {
        id: 0,
        entries: vec![
            ("k".to_string(), JsVal::Str("toolong".to_string())),
            ("toolong".to_string(), JsVal::Int(1)),
        ],
    };
    let built = heap.build(jsval_to_js(value, 4));
    match heap.read(built) {
        JsVal::Obj { entries, .. } => {
            assert_eq!(entries.len(), 1);
            assert_eq!(entries[0].0, "k");
        }
        other => panic!("{other:?}"),
    }
}

#[test]
fn big_integers_and_dates_reach_ruby() {
    let build = jsval_to_ruby(JsVal::BigInt { negative: true, words: vec![0, 1] }).unwrap();
    assert_eq!(
        build.ops,
        vec![BuildOp::MakeInteger { negative: true, hex: "10000000000000000".to_string() }]
    );
    assert_eq!(build.root, 0);
    assert!(jsval_to_ruby(JsVal::Date(0f64.to_bits())).is_ok());
    assert!(jsval_to_ruby(JsVal::Date(f64::NAN.to_bits())).is_err());
    let nested = JsVal::Array { id: 0, items: vec![JsVal::Date(f64::INFINITY.to_bits())] };
    assert!(jsval_to_ruby(nested).is_err());
}

// Ruby's values.
#[derive(Clone)]
enum Rb {
    Nil,
    Bool(bool),
    Int(i64),
    Big(bool, String),
    Float(f64),
    Time(f64),
    Symbol(Option<String>),
    Bytes(RbEncoding, Vec<u8>),
    // Transcodes to the string at that index.
    Legacy(usize),
    // Converts to the string at that index.
    StringLike(usize),
    Array(Vec<usize>),
    Hash(Vec<(usize, usize)>),
    JsMap(Vec<(usize, usize)>),
    SetObject(Vec<usize>),
    Other,
    // Its `to_s` is its name, and deletes a key of a hash.
    Deleter(String, usize, usize),
    // Its `to_s` adds a key to a hash, which Ruby refuses while a way leads through it.
    Adder(usize),
    // The way through a hash, and the keys still ahead.
    Way(usize, Vec<usize>),
    // Raises whatever it is asked.
    Cursed,
}

fn utf8(s: &str) -> Rb {
    Rb::Bytes(RbEncoding::Utf8, s.as_bytes().to_vec())
}

struct Ruby {
    values: RefCell<Vec<Rb>>,
    // The ways begun and not ended.
    open: RefCell<Vec<usize>>,
}

impl Ruby {
    fn new(values: Vec<Rb>) -> Ruby {
        Ruby { values: RefCell::new(values), open: RefCell::new(vec![]) }
    }

    fn add(&self, value: Rb) -> usize {
        self.values.borrow_mut().push(value);
        self.values.borrow().len() - 1
    }

    fn pairs(&self, hash: usize) -> Option<Vec<(usize, usize)>> {
        match self.values.borrow()[hash].clone() {
            Rb::Hash(pairs) | Rb::JsMap(pairs) => Some(pairs),
            _ => None,
        }
    }

    fn delete(&self, hash: usize, key: usize) {
        if let Rb::Hash(pairs) | Rb::JsMap(pairs) = &mut self.values.borrow_mut()[hash] {
            pairs.retain(|(k, _)| *k != key);
        }
    }

    fn gone_through(&self, hash: usize) -> bool {
        let leads = |way: &usize| matches!(&self.values.borrow()[*way], Rb::Way(h, _) if *h == hash);
        self.open.borrow().iter().any(leads)
    }

    // The next pair that is still in the hash.
    fn step(&self, way: usize) -> Option<(usize, usize)> {
        let (hash, ahead) = match self.values.borrow()[way].clone() {
            Rb::Way(hash, ahead) => (hash, ahead),
            _ => return None,
        };
        let pairs = self.pairs(hash).unwrap_or_default();
        let mut rest = ahead.into_iter();
        let next = rest.find_map(|key| pairs.iter().find(|(k, _)| *k == key).copied());
        self.values.borrow_mut()[way] = Rb::Way(hash, rest.collect());
        next
    }

    fn answer(&self, q: RbAsk<usize>) -> RbTold<usize, &'static str> {
        let at = |v: usize| self.values.borrow()[v].clone();
        match q {
            RbAsk::Is(v, test) => RbTold::Is(match (at(v), test) {
                (Rb::Nil, RbTest::Nil) => true,
                (Rb::Bool(b), RbTest::True) => b,
                (Rb::Bool(b), RbTest::False) => !b,
                (Rb::Time(_), RbTest::Time) => true,
                (Rb::Int(_), RbTest::Integer) | (Rb::Big(..), RbTest::Integer) => true,
                (Rb::Symbol(_), RbTest::Symbol) => true,
                (Rb::Bytes(..), RbTest::String) | (Rb::Legacy(_), RbTest::String) => true,
                (Rb::StringLike(_), RbTest::StringLike) => true,
                (Rb::SetObject(_), RbTest::SetObject) => true,
                (Rb::JsMap(_), RbTest::JsMap) => true,
                _ => false,
            }),
            RbAsk::Millis(v) => match at(v) {
                Rb::Time(ms) => RbTold::Millis(Ok(ms.to_bits())),
                _ => RbTold::Millis(Err("no time")),
            },
            RbAsk::Small(v) => match at(v) {
                Rb::Int(n) => RbTold::Small(Some(n)),
                _ => RbTold::Small(None),
            },
            RbAsk::Hex(v) => match at(v) {
                Rb::Big(_, hex) => RbTold::Hex(Ok(hex)),
                Rb::Int(n) => RbTold::Hex(Ok(format!("{:x}", n.unsigned_abs()))),
                _ => RbTold::Hex(Err("no integer")),
            },
            RbAsk::Negative(v) => match at(v) {
                Rb::Big(negative, _) => RbTold::Negative(Ok(negative)),
                Rb::Int(n) => RbTold::Negative(Ok(n < 0)),
                _ => RbTold::Negative(Err("no integer")),
            },
            RbAsk::Float(v) => match at(v) {
                Rb::Float(f) => RbTold::Float(Some(f.to_bits())),
                _ => RbTold::Float(None),
            },
            RbAsk::SymbolName(v) => match at(v) {
                Rb::Symbol(name) => RbTold::SymbolName(name),
                _ => RbTold::SymbolName(None),
            },
            RbAsk::Encoding(v) => match at(v) {
                Rb::Bytes(encoding, _) => RbTold::Encoding(encoding),
                _ => RbTold::Encoding(RbEncoding::Other),
            },
            RbAsk::Bytes(v) => match at(v) {
                Rb::Bytes(_, bytes) => RbTold::Bytes(bytes),
                _ => RbTold::Bytes(vec![]),
            },
            RbAsk::Encode(v) => match at(v) {
                Rb::Legacy(to) => RbTold::Value(Ok(to)),
                _ => RbTold::Value(Err("cannot transcode")),
            },
            RbAsk::ToStr(v) => match at(v) {
                Rb::StringLike(to) => RbTold::Value(Ok(to)),
                _ => RbTold::Value(Err("no to_str")),
            },
            RbAsk::ToS(v) => match at(v) {
                Rb::Int(n) => RbTold::Value(Ok(self.add(utf8(&n.to_string())))),
                Rb::Symbol(Some(name)) => RbTold::Value(Ok(self.add(utf8(&name)))),
                Rb::Array(_) => RbTold::Value(Ok(self.add(utf8("[deep]")))),
                Rb::Other => RbTold::Value(Ok(self.add(Rb::Nil))),
                Rb::Deleter(name, hash, key) => {
                    self.delete(hash, key);
                    RbTold::Value(Ok(self.add(utf8(&name))))
                }
                Rb::Adder(hash) if self.gone_through(hash) => {
                    RbTold::Value(Err("can't add a new key into hash during iteration"))
                }
                _ => RbTold::Value(Err("to_s raised")),
            },
            RbAsk::ToA(v) => match at(v) {
                Rb::SetObject(items) => RbTold::Value(Ok(self.add(Rb::Array(items)))),
                _ => RbTold::Value(Err("no to_a")),
            },
            RbAsk::ArrayOf(v) => match at(v) {
                Rb::Array(_) => RbTold::Maybe(Some(v)),
                _ => RbTold::Maybe(None),
            },
            RbAsk::HashOf(v) => match at(v) {
                Rb::Hash(_) | Rb::JsMap(_) => RbTold::Maybe(Some(v)),
                _ => RbTold::Maybe(None),
            },
            RbAsk::Pairs(v) => match self.pairs(v) {
                Some(pairs) => {
                    let way = self.add(Rb::Way(v, pairs.iter().map(|(k, _)| *k).collect()));
                    self.open.borrow_mut().push(way);
                    RbTold::Pairs(Ok((way, pairs.len())))
                }
                None => RbTold::Pairs(Err("no hash")),
            },
            RbAsk::Pair(way, _) => RbTold::Pair(Ok(self.step(way))),
            RbAsk::End(way) => {
                self.open.borrow_mut().retain(|w| *w != way);
                RbTold::Ended
            }
            RbAsk::Len(v) => match at(v) {
                Rb::Array(items) => RbTold::Len(items.len()),
                _ => RbTold::Len(0),
            },
            RbAsk::Entry(v, i) => match at(v) {
                Rb::Array(items) => RbTold::Value(Ok(items[i])),
                _ => RbTold::Value(Err("no array")),
            },
            RbAsk::ObjectId(v) => match at(v) {
                Rb::Cursed => RbTold::ObjectId(Err("cursed")),
                _ => RbTold::ObjectId(Ok(8 * v)),
            },
        }
    }

    fn read(&self, v: usize) -> Result<JsVal, RbFault<&'static str>> {
        ruby_to_jsval(&|q: RbAsk<usize>| self.answer(q), v)
    }
}

#[test]
fn plain_ruby_values_cross() {
    let ruby = Ruby::new(vec![
        Rb::Nil,
        Rb::Bool(true),
        Rb::Bool(false),
        Rb::Int(42),
        Rb::Int(9007199254740993),
        Rb::Big(true, "10000000000000000".to_string()),
        Rb::Float(2.5),
        Rb::Time(1000.0),
        Rb::Symbol(Some("sym".to_string())),
        utf8("text"),
        Rb::Bytes(RbEncoding::Binary, vec![0, 159]),
        Rb::Legacy(9),
        Rb::StringLike(10),
    ]);
    assert_eq!(ruby.read(0), Ok(JsVal::Null));
    assert_eq!(ruby.read(1), Ok(JsVal::Bool(true)));
    assert_eq!(ruby.read(2), Ok(JsVal::Bool(false)));
    assert_eq!(ruby.read(3), Ok(JsVal::Int(42)));
    assert_eq!(
        ruby.read(4),
        Ok(JsVal::BigInt { negative: false, words: vec![9007199254740993] })
    );
    assert_eq!(ruby.read(5), Ok(JsVal::BigInt { negative: true, words: vec![0, 1] }));
    assert_eq!(ruby.read(6), Ok(JsVal::Num(2.5f64.to_bits())));
    assert_eq!(ruby.read(7), Ok(JsVal::Date(1000f64.to_bits())));
    assert_eq!(ruby.read(8), Ok(JsVal::Str("sym".to_string())));
    assert_eq!(ruby.read(9), Ok(JsVal::Str("text".to_string())));
    assert_eq!(ruby.read(10), Ok(JsVal::Bytes { id: Some(0), bytes: vec![0, 159] }));
    assert_eq!(ruby.read(11), Ok(JsVal::Str("text".to_string())));
    assert_eq!(ruby.read(12), Ok(JsVal::Bytes { id: None, bytes: vec![0, 159] }));
}

#[test]
fn ruby_containers_cross() {
    let ruby = Ruby::new(vec![
        Rb::Hash(vec![(1, 2), (3, 4), (5, 0)]),
        utf8("a"),
        Rb::Array(vec![4, 4]),
        Rb::Int(7),
        Rb::JsMap(vec![(3, 2)]),
        Rb::Symbol(Some("me".to_string())),
    ]);
    let map = JsVal::JsMap { id: 2, pairs: vec![(JsVal::Int(7), JsVal::Ref(1))] };
    assert_eq!(
        ruby.read(0),
        Ok(JsVal::Obj {
            id: 0,
            entries: vec![
                ("a".to_string(), JsVal::Array { id: 1, items: vec![map, JsVal::Ref(2)] }),
                ("7".to_string(), JsVal::Ref(2)),
                ("me".to_string(), JsVal::Ref(0)),
            ],
        })
    );
    let set = Ruby::new(vec![Rb::SetObject(vec![1]), Rb::Nil]);
    assert_eq!(set.read(0), Ok(JsVal::JsSet { id: 0, items: vec![JsVal::Null] }));
}

#[test]
fn ruby_values_that_do_not_cross() {
    let ruby = Ruby::new(vec![
        Rb::Other,
        Rb::Symbol(None),
        Rb::Bytes(RbEncoding::Utf8, vec![0xff]),
        Rb::Hash(vec![(2, 0)]),
        Rb::Hash(vec![(0, 4)]),
        Rb::Cursed,
        Rb::Array(vec![1]),
    ]);
    assert_eq!(ruby.read(0), Err(RbFault::Refused(RbRefusal::Unsupported)));
    assert_eq!(ruby.read(1), Err(RbFault::Refused(RbRefusal::SymbolName)));
    assert_eq!(ruby.read(2), Err(RbFault::Refused(RbRefusal::TextBytes)));
    assert_eq!(ruby.read(3), Err(RbFault::Refused(RbRefusal::KeyBytes)));
    assert_eq!(ruby.read(4), Err(RbFault::Refused(RbRefusal::KeyText)));
    assert_eq!(ruby.read(6), Err(RbFault::Refused(RbRefusal::SymbolName)));
}

#[test]
fn what_ruby_raises_comes_through() {
    let ruby = Ruby::new(vec![Rb::Legacy(9), Rb::Array(vec![2]), Rb::Cursed]);
    assert!(ruby.read(1).is_err());
    let times = Ruby::new(vec![Rb::Hash(vec![(1, 1)]), Rb::Float(0.5)]);
    assert_eq!(times.read(0), Err(RbFault::Raised("to_s raised")));
}

#[test]
fn hash_is_gone_through_as_it_changes() {
    // The first key's `to_s` deletes the second key; the third is met after it.
    let ruby = Ruby::new(vec![
        Rb::Hash(vec![(1, 4), (2, 5), (3, 6)]),
        Rb::Deleter("first".to_string(), 0, 2),
        utf8("second"),
        utf8("third"),
        Rb::Int(1),
        Rb::Int(2),
        Rb::Int(3),
    ]);
    assert_eq!(
        ruby.read(0),
        Ok(JsVal::Obj {
            id: 0,
            entries: vec![
                ("first".to_string(), JsVal::Int(1)),
                ("third".to_string(), JsVal::Int(3)),
            ],
        })
    );
    assert!(ruby.open.borrow().is_empty());
    // A hash inside a map deletes the key of the map that comes next.
    let map = Ruby::new(vec![
        Rb::JsMap(vec![(1, 2), (4, 4)]),
        utf8("k"),
        Rb::Hash(vec![(3, 4)]),
        Rb::Deleter("inner".to_string(), 0, 4),
        Rb::Nil,
    ]);
    assert_eq!(
        map.read(0),
        Ok(JsVal::JsMap {
            id: 0,
            pairs: vec![(
                JsVal::Str("k".to_string()),
                JsVal::Obj { id: 1, entries: vec![("inner".to_string(), JsVal::Null)] },
            )],
        })
    );
    assert!(map.open.borrow().is_empty());
}

#[test]
fn way_through_a_hash_is_ended() {
    // Adding a key on the way raises, and no way is left open after that.
    let ruby = Ruby::new(vec![
        Rb::Hash(vec![(1, 3), (2, 3)]),
        utf8("a"),
        Rb::Adder(0),
        Rb::Nil,
        Rb::JsMap(vec![(3, 5)]),
        Rb::Hash(vec![(2, 0)]),
    ]);
    assert_eq!(
        ruby.read(0),
        Err(RbFault::Raised("can't add a new key into hash during iteration"))
    );
    assert!(ruby.open.borrow().is_empty());
    // Nor where the fault comes from further in: here two ways were open.
    assert!(ruby.read(4).is_err());
    assert!(ruby.open.borrow().is_empty());
}

#[test]
fn containers_are_told_apart() {
    let ruby = Ruby::new(vec![Rb::Array(vec![]), Rb::Array(vec![]), Rb::Cursed]);
    let ask = |q: RbAsk<usize>| ruby.answer(q);
    let mut seen = RbSeen::new();
    assert_eq!(rb_container_id(&ask, &mut seen, 0, 0), Ok(RbId::New(0)));
    assert_eq!(rb_container_id(&ask, &mut seen, 1, 255), Ok(RbId::New(1)));
    assert_eq!(rb_container_id(&ask, &mut seen, 0, 256), Ok(RbId::Reuse(JsVal::Ref(0))));
    assert_eq!(rb_container_id(&ask, &mut seen, 2, 0), Err(RbFault::Raised("cursed")));
    // Cut off, it gets no id: met again less deep, it is new.
    let mut none = RbSeen::new();
    let text = JsVal::Str("[deep]".to_string());
    assert_eq!(rb_container_id(&ask, &mut none, 0, 256), Ok(RbId::Reuse(text)));
    assert_eq!(rb_container_id(&ask, &mut none, 0, 1), Ok(RbId::New(0)));
}

#[test]
fn deep_ruby_nesting_is_cut_off() {
    let mut values = vec![Rb::Array(vec![])];
    for i in 0..300 {
        values.push(Rb::Array(vec![i]));
    }
    let ruby = Ruby::new(values);
    let mut val = ruby.read(300).unwrap();
    let mut depth = 0;
    while let JsVal::Array { mut items, .. } = val {
        depth += 1;
        val = items.pop().unwrap_or(JsVal::Undefined);
    }
    assert_eq!(depth, 256);
    assert_eq!(val, JsVal::Str("[deep]".to_string()));
}

#[test]
fn deep_ruby_text_is_mended() {
    let mut values = vec![Rb::Array(vec![])];
    for i in 0..256 {
        values.push(Rb::Array(vec![i]));
    }
    let ruby = Ruby::new(values);
    // The innermost array is cut off to its `to_s`, which is not valid text here.
    let ask = |q: RbAsk<usize>| match q {
        RbAsk::ToS(_) => {
            RbTold::Value(Ok(ruby.add(Rb::Bytes(RbEncoding::Utf8, vec![b'h', 0xff]))))
        }
        other => ruby.answer(other),
    };
    let mut val = ruby_to_jsval(&ask, 256).unwrap();
    while let JsVal::Array { mut items, .. } = val {
        val = items.pop().unwrap();
    }
    assert_eq!(val, JsVal::Str("h\u{fffd}".to_string()));
}

#[test]
fn ruby_values_go_there_and_back() {
    let ruby = Ruby::new(vec![
        Rb::Array(vec![1, 1, 2, 3]),
        Rb::SetObject(vec![2]),
        utf8("x"),
        Rb::Hash(vec![(2, 0)]),
    ]);
    let value = ruby.read(0).unwrap();
    let build = jsval_to_ruby(value).unwrap();
    let mut made: Vec<usize> = Vec::new();
    let other = Ruby::new(vec![]);
    for op in build.ops {
        let v = match op {
            BuildOp::Make(JsVal::Str(s)) => other.add(utf8(&s)),
            BuildOp::NewArray(_) => other.add(Rb::Array(vec![])),
            BuildOp::NewSet => other.add(Rb::SetObject(vec![])),
            BuildOp::NewObject => other.add(Rb::Hash(vec![])),
            BuildOp::SetIndex { array, index, value } => {
                if let Rb::Array(items) = &mut other.values.borrow_mut()[made[array]] {
                    assert_eq!(items.len(), index);
                    items.push(made[value]);
                }
                0
            }
            BuildOp::SetAdd { set, value } => {
                if let Rb::SetObject(items) = &mut other.values.borrow_mut()[made[set]] {
                    items.push(made[value]);
                }
                0
            }
            BuildOp::SetKey { object, key, value } => {
                let k = other.add(utf8(&key));
                if let Rb::Hash(pairs) = &mut other.values.borrow_mut()[made[object]] {
                    pairs.push((k, made[value]));
                }
                0
            }
            op => panic!("{op:?}"),
        };
        made.push(v);
    }
    assert_eq!(other.read(made[build.root]).unwrap(), ruby.read(0).unwrap());
}

#[test]
fn ids_stand_for_ruby_objects() {
    // [a, b, a, raw, raw] with a and b empty arrays and raw a binary string.
    let ruby = Ruby::new(vec![
        Rb::Array(vec![1, 2, 1, 3, 3]),
        Rb::Array(vec![]),
        Rb::Array(vec![]),
        Rb::Bytes(RbEncoding::Binary, vec![7]),
    ]);
    assert_eq!(
        ruby.read(0),
        Ok(JsVal::Array {
            id: 0,
            items: vec![
                JsVal::Array { id: 1, items: vec![] },
                JsVal::Array { id: 2, items: vec![] },
                JsVal::Ref(1),
                JsVal::Bytes { id: Some(3), bytes: vec![7] },
                JsVal::Ref(3),
            ],
        })
    );
}
