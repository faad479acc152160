//! What script code asks of the host.

use vstd::prelude::*;

use crate::procs::ProcTable;
use crate::state::Engine;
use crate::state::IsolateState;
use crate::state::StateView;
use crate::text::digits_value;
use crate::text::law_numeral_stands_for_the_number;
use crate::text::numeral;
use crate::text::write_number;
use crate::value::JsVal;

verus! {

/// What is thrown into the script where the host cannot do what it asks.
#[derive(Debug, Clone, Copy, PartialEq, Eq, Structural)]
pub enum HostFault {
    NoOwner,
    UnknownFunction,
    Incomplete,
    ContextIdExpected,
    UnknownContext(i32),
}

/// A number with its sign.
pub open spec fn signed(n: int) -> Seq<char> {
    if n < 0 {
        "-"@ + numeral((-n) as nat, 10)
    } else {
        numeral(n as nat, 10)
    }
}

impl HostFault {
    pub open spec fn spelled(self) -> Seq<char> {
        match self {
            HostFault::NoOwner => "host function has no owner"@,
            HostFault::UnknownFunction => "unknown host function"@,
            HostFault::Incomplete => "host function did not complete"@,
            HostFault::ContextIdExpected => "contextGlobal expects a context id"@,
            HostFault::UnknownContext(id) => "unknown context "@ + signed(id as int),
        }
    }

    pub fn message(self) -> (text: String)
        ensures
            text@ == self.spelled(),
    {
        match self {
            HostFault::NoOwner => "host function has no owner".to_owned(),
            HostFault::UnknownFunction => "unknown host function".to_owned(),
            HostFault::Incomplete => "host function did not complete".to_owned(),
            HostFault::ContextIdExpected => "contextGlobal expects a context id".to_owned(),
            HostFault::UnknownContext(id) => {
                let mut text: String = "unknown context ".to_owned();
                let wide: i64 = id as i64;
                if wide < 0 {
                    text.append("-");
                    write_number(&mut text, (-wide) as u64, 10);
                } else {
                    write_number(&mut text, wide as u64, 10);
                }
                assert(text@ =~= self.spelled());
                text
            },
        }
    }
}

/// What becomes of a script's call to a host function.
#[derive(Debug, Clone, Copy, PartialEq, Eq, Structural)]
pub enum HostCall {
    /// It was not one of ours; it returns nothing.
    Ignore,
    Throw(HostFault),
    Call(usize),
}

/// What a script's call to a host function leads to. The function carries its
/// number; `owned` says that the isolate is wired up.
pub fn host_fn_callback(host_fn_id: Option<usize>, owned: bool) -> (call: HostCall)
    ensures
        call == (match host_fn_id {
            None => HostCall::Ignore,
            Some(id) => if owned {
                HostCall::Call(id)
            } else {
                HostCall::Throw(HostFault::NoOwner)
            },
        }),
{
    match host_fn_id {
        None => HostCall::Ignore,
        Some(id) => if owned {
            HostCall::Call(id)
        } else {
            HostCall::Throw(HostFault::NoOwner)
        },
    }
}

/// The host function with this number.
pub fn call_proc<P>(procs: &ProcTable<P>, host_fn_id: usize) -> (proc: Result<&P, HostFault>)
    requires
        procs.wf(),
    ensures
        match proc {
            Ok(p) => procs.is_live(host_fn_id as int) && procs.slots()[host_fn_id as int].proc
                == Some(*p),
            Err(fault) => !procs.is_live(host_fn_id as int) && fault is UnknownFunction,
        },
{
    match procs.lookup(host_fn_id) {
        Some(p) => Ok(p),
        None => Err(HostFault::UnknownFunction),
    }
}

/// What a script sees of a host function's end.
#[derive(Debug, PartialEq, Eq)]
pub enum HostReturn {
    Value(JsVal),
    Throw(String),
}

/// What the script gets: the value that the host function returned, or the message
/// of what it raised as an exception.
pub fn host_return(result: Option<Result<JsVal, String>>) -> (out: HostReturn)
    ensures
        match result {
            Some(Ok(value)) => out == HostReturn::Value(value),
            Some(Err(message)) => out == HostReturn::Throw(message),
            None => out matches HostReturn::Throw(text) && text@ == HostFault::Incomplete.spelled(),
        },
{
    match result {
        Some(Ok(value)) => HostReturn::Value(value),
        Some(Err(message)) => HostReturn::Throw(message),
        None => HostReturn::Throw(HostFault::Incomplete.message()),
    }
}

impl<E: Engine> IsolateState<E> {
    /// The context that a script asks for by number.
    pub fn context_global(&self, id: Option<i32>) -> (found: Result<&E::Context, HostFault>)
        ensures
            match id {
                None => found == Err::<&E::Context, HostFault>(HostFault::ContextIdExpected),
                Some(id) => match self@.realm(id) {
                    Some(realm) => found matches Ok(context) && *context == realm.context,
                    None => found == Err::<&E::Context, HostFault>(HostFault::UnknownContext(id)),
                },
            },
    {
        match id {
            None => Err(HostFault::ContextIdExpected),
            Some(id) => match self.context_for(id) {
                Some(context) => Ok(context),
                None => Err(HostFault::UnknownContext(id)),
            },
        }
    }

    /// Registers the function that hears of rejected promises, or with none clears
    /// it. A function whose realm is not known counts as one of the isolate's own.
    pub fn register_reject_handler(&mut self, function: Option<E::Function>, realm: Option<i32>)
        requires
            old(self).wf(),
        ensures
            final(self).wf(),
            final(self)@ == (StateView {
                handler: match function {
                    Some(f) => Some(
                        (
                            match realm {
                                Some(id) => id,
                                None => 0,
                            },
                            f,
                        ),
                    ),
                    None => None,
                },
                ..old(self)@
            }),
            final(self)@ == old(self)@.heard_by(function, realm),
    {
        let handler = match function {
            Some(f) => {
                let id: i32 = match realm {
                    Some(id) => id,
                    None => 0,
                };
                Some((id, f))
            },
            None => None,
        };
        self.set_promise_reject_handler(handler);
    }
}

/// What is printed before the process is stopped: what happened, which host
/// function did it, and where.
pub open spec fn nesting_text(
    name: Seq<char>,
    place: Seq<char>,
    before: nat,
    now: nat,
) -> Seq<char> {
    "[rusty_racer] fatal: operations on this isolate stopped nesting.\n\nThe host function `"@ + name
        + "` handed control to Ruby.\nBy the time it came back, the operations in flight on this isolate had\nchanged (now "@
        + numeral(now, 10) + ", was "@ + numeral(before, 10) + ") \u{2014} so they no longer nest. It happened at "@ + place
        + ".\n"@
}

/// Operations on an isolate unwind in the reverse of the order in which they were
/// begun. When a host function comes back, as many must be in flight as when it was
/// called; if not, there is no way to go on, and this is what to say of it. `place`
/// is where the host function stands.
pub fn nesting_fault(name: &str, place: &str, before: u32, now: u32) -> (fatal: Option<String>)
    ensures
        match fatal {
            Some(text) => before != now && text@ == nesting_text(
                name@,
                place@,
                before as nat,
                now as nat,
            ),
            None => before == now,
        },
{
    if before == now {
        return None;
    }
    let mut text: String = String::new();
    text.append(
        "[rusty_racer] fatal: operations on this isolate stopped nesting.\n\nThe host function `",
    );
    text.append(name);
    text.append(
        "` handed control to Ruby.\nBy the time it came back, the operations in flight on this isolate had\nchanged (now ",
    );
    write_number(&mut text, now as u64, 10);
    text.append(", was ");
    write_number(&mut text, before as u64, 10);
    text.append(") \u{2014} so they no longer nest. It happened at ");
    text.append(place);
    text.append(".\n");
    assert(text@ =~= nesting_text(name@, place@, before as nat, now as nat));
    Some(text)
}

/// A number is written with its sign: in front of a negative one stands a minus, and
/// then what stands for its opposite; any other is written by its digits alone.
pub proof fn law_sign_stands_in_front(n: int)
    ensures
        n < 0 ==> signed(n) == "-"@ + signed(-n),
        n >= 0 ==> signed(n).len() > 0 && forall|i: int|
            0 <= i < signed(n).len() ==> '0' <= #[trigger] signed(n)[i] <= '9',
{
    if n >= 0 {
        lemma_digits_only(n as nat);
    }
}

proof fn lemma_digits_only(n: nat)
    ensures
        numeral(n, 10).len() > 0,
        forall|i: int| 0 <= i < numeral(n, 10).len() ==> '0' <= #[trigger] numeral(n, 10)[i] <= '9',
    decreases n,
{
    if n >= 10 {
        lemma_digits_only(n / 10);
    }
}

/// What a script is told of a realm that is not there ends with the realm's number,
/// in digits that stand for it.
pub proof fn law_unknown_realm_is_named(id: i32)
    ensures
        HostFault::UnknownContext(id).spelled() == "unknown context "@ + signed(id as int),
        id >= 0 ==> digits_value(signed(id as int), 10) == id,
        id < 0 ==> digits_value(signed(-(id as int)), 10) == -(id as int),
{
    law_numeral_stands_for_the_number(
        if id >= 0 {
            id as nat
        } else {
            (-(id as int)) as nat
        },
        10,
    );
}

} // verus!
