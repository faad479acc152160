//! What an isolate can be asked to do, and what it replies.

use vstd::prelude::*;

use crate::error::VmError;
use crate::value::JsVal;

verus! {

/// One operation. A context id selects the realm that it runs in: zero is the
/// isolate's own, others were made by `CreateContext`. A timeout of zero is none.
#[derive(Debug)]
pub enum Request {
    /// Run code. If `void`, its completion value is not looked at.
    Eval { context_id: i32, source: String, filename: String, void: bool, timeout_ms: u64 },
    /// Call the function at a dotted path. If `void`, what it returns is not
    /// looked at.
    Call { context_id: i32, name: String, args: Vec<JsVal>, void: bool, timeout_ms: u64 },
    /// Drain the microtask queues once.
    DrainMicrotasks { timeout_ms: u64 },
    /// Put a host function at a dotted path.
    Attach { context_id: i32, name: String, host_fn_id: usize, timeout_ms: u64 },
    /// Put several host functions at their paths, in order.
    AttachMany { context_id: i32, entries: Vec<(String, usize)>, timeout_ms: u64 },
    /// Swap a realm's globals for fresh ones.
    Reset { context_id: i32 },
    CreateContext,
    DisposeContext { context_id: i32 },
    CompileModule {
        context_id: i32,
        source: String,
        filename: String,
        cached_data: Option<Vec<u8>>,
        produce_cache: bool,
        eager: bool,
    },
    InstantiateModule { module_id: i32 },
    EvaluateModule { module_id: i32, timeout_ms: u64 },
    ModuleNamespace { module_id: i32 },
    ModuleStatus { module_id: i32 },
    /// Is there a top-level await anywhere in the module's linked graph?
    ModuleGraphAsync { module_id: i32 },
    DisposeModule { module_id: i32 },
    CompileScript {
        context_id: i32,
        source: String,
        filename: String,
        cached_data: Option<Vec<u8>>,
        produce_cache: bool,
        eager: bool,
    },
    /// Run a compiled script. If `void`, its completion value is not looked at.
    RunScript { script_id: i32, void: bool, timeout_ms: u64 },
    DisposeScript { script_id: i32 },
    /// Serialize what has been compiled of a script so far.
    ScriptCodeCache { script_id: i32 },
    /// Serialize what has been compiled of a module so far.
    ModuleCodeCache { module_id: i32 },
    HeapStatistics,
    /// Collect garbage now.
    LowMemoryNotification,
}

/// A compiled script or module.
#[derive(Debug, PartialEq, Eq)]
pub struct Compiled {
    pub id: i32,
    /// The code cache, if one was asked for and could be made.
    pub cached_data: Option<Vec<u8>>,
    /// A code cache was given and the engine did not accept it.
    pub cache_rejected: bool,
}

/// The state of an isolate's heap, in bytes; the two last are counts.
#[derive(Debug, Clone, Copy, PartialEq, Eq, Structural)]
pub struct HeapStats {
    pub used_heap_size: u64,
    pub total_heap_size: u64,
    pub heap_size_limit: u64,
    pub malloced_memory: u64,
    pub peak_malloced_memory: u64,
    pub external_memory: u64,
    pub number_of_native_contexts: u64,
    pub number_of_detached_contexts: u64,
}

/// A name and a number.
pub type HeapEntry = (&'static str, u64);

/// An entry with this name and number.
pub open spec fn says(entry: HeapEntry, name: Seq<char>, value: u64) -> bool {
    entry.0@ == name && entry.1 == value
}

impl HeapStats {
    /// The numbers with their names, in order.
    pub open spec fn named_numbers(self) -> Seq<(Seq<char>, u64)> {
        seq![
            ("used_heap_size"@, self.used_heap_size),
            ("total_heap_size"@, self.total_heap_size),
            ("heap_size_limit"@, self.heap_size_limit),
            ("malloced_memory"@, self.malloced_memory),
            ("peak_malloced_memory"@, self.peak_malloced_memory),
            ("external_memory"@, self.external_memory),
            ("number_of_native_contexts"@, self.number_of_native_contexts),
            ("number_of_detached_contexts"@, self.number_of_detached_contexts),
        ]
    }

    /// The numbers with their names, in order.
    pub fn entries(&self) -> (entries: Vec<HeapEntry>)
        ensures
            entries@.len() == 8,
            says(entries@[0], "used_heap_size"@, self.used_heap_size),
            says(entries@[1], "total_heap_size"@, self.total_heap_size),
            says(entries@[2], "heap_size_limit"@, self.heap_size_limit),
            says(entries@[3], "malloced_memory"@, self.malloced_memory),
            says(entries@[4], "peak_malloced_memory"@, self.peak_malloced_memory),
            says(entries@[5], "external_memory"@, self.external_memory),
            says(entries@[6], "number_of_native_contexts"@, self.number_of_native_contexts),
            says(entries@[7], "number_of_detached_contexts"@, self.number_of_detached_contexts),
            forall|i: int|
                0 <= i < 8 ==> says(
                    #[trigger] entries@[i],
                    self.named_numbers()[i].0,
                    self.named_numbers()[i].1,
                ),
    {
        vec![
            ("used_heap_size", self.used_heap_size),
            ("total_heap_size", self.total_heap_size),
            ("heap_size_limit", self.heap_size_limit),
            ("malloced_memory", self.malloced_memory),
            ("peak_malloced_memory", self.peak_malloced_memory),
            ("external_memory", self.external_memory),
            ("number_of_native_contexts", self.number_of_native_contexts),
            ("number_of_detached_contexts", self.number_of_detached_contexts),
        ]
    }
}

/// What an operation replies.
#[derive(Debug, PartialEq, Eq)]
pub enum VmReply {
    Done(Result<JsVal, VmError>),
    ModuleCompiled(Result<Compiled, VmError>),
    ScriptCompiled(Result<Compiled, VmError>),
    /// The serialized code; none if there is none to be had.
    CodeCache(Result<Option<Vec<u8>>, VmError>),
    Heap(HeapStats),
}

/// How far a module has come.
#[derive(Debug, Clone, Copy, PartialEq, Eq, Structural)]
pub enum ModuleStatus {
    Uninstantiated,
    Instantiating,
    Instantiated,
    Evaluating,
    Evaluated,
    Errored,
}

impl ModuleStatus {
    pub open spec fn spelled(self) -> Seq<char> {
        match self {
            ModuleStatus::Uninstantiated => "uninstantiated"@,
            ModuleStatus::Instantiating => "instantiating"@,
            ModuleStatus::Instantiated => "instantiated"@,
            ModuleStatus::Evaluating => "evaluating"@,
            ModuleStatus::Evaluated => "evaluated"@,
            ModuleStatus::Errored => "errored"@,
        }
    }

    pub fn name(self) -> (name: &'static str)
        ensures
            name@ == self.spelled(),
    {
        match self {
            ModuleStatus::Uninstantiated => "uninstantiated",
            ModuleStatus::Instantiating => "instantiating",
            ModuleStatus::Instantiated => "instantiated",
            ModuleStatus::Evaluating => "evaluating",
            ModuleStatus::Evaluated => "evaluated",
            ModuleStatus::Errored => "errored",
        }
    }

    /// The module has been linked. (One that failed to link goes back to the
    /// start, so one that has failed was linked before.)
    pub open spec fn linked(self) -> bool {
        !(self is Uninstantiated || self is Instantiating)
    }

    pub fn is_linked(self) -> (yes: bool)
        ensures
            yes == self.linked(),
    {
        match self {
            ModuleStatus::Uninstantiated | ModuleStatus::Instantiating => false,
            _ => true,
        }
    }
}

/// The error that a stopped script was given, told apart by what stopped it.
pub open spec fn oom_instead<T>(r: Result<T, VmError>) -> Result<T, VmError> {
    match r {
        Err(VmError::Terminated) => Err(VmError::OutOfMemory),
        other => other,
    }
}

/// A reply in which a stopped script counts as one that ran out of memory.
pub open spec fn oom_reply(reply: VmReply) -> VmReply {
    match reply {
        VmReply::Done(r) => VmReply::Done(oom_instead(r)),
        VmReply::ModuleCompiled(r) => VmReply::ModuleCompiled(oom_instead(r)),
        VmReply::ScriptCompiled(r) => VmReply::ScriptCompiled(oom_instead(r)),
        VmReply::CodeCache(r) => VmReply::CodeCache(oom_instead(r)),
        VmReply::Heap(s) => VmReply::Heap(s),
    }
}

fn fix<T>(r: Result<T, VmError>) -> (out: Result<T, VmError>)
    ensures
        out == oom_instead(r),
{
    match r {
        Err(VmError::Terminated) => Err(VmError::OutOfMemory),
        other => other,
    }
}

/// Tells that it was memory that a script ran out of.
pub fn relabel_oom(reply: VmReply) -> (out: VmReply)
    ensures
        out == oom_reply(reply),
{
    match reply {
        VmReply::Done(r) => VmReply::Done(fix(r)),
        VmReply::ModuleCompiled(r) => VmReply::ModuleCompiled(fix(r)),
        VmReply::ScriptCompiled(r) => VmReply::ScriptCompiled(fix(r)),
        VmReply::CodeCache(r) => VmReply::CodeCache(fix(r)),
        VmReply::Heap(s) => VmReply::Heap(s),
    }
}

/// If the heap came up to its limit, a script that was stopped ran out of memory;
/// every other reply says what it said before.
pub proof fn law_only_stopped_scripts_ran_out_of_memory(
    reply: VmReply,
    value: JsVal,
    compiled: Compiled,
    bytes: Option<Vec<u8>>,
    stats: HeapStats,
    error: VmError,
)
    requires
        error !is Terminated,
    ensures
        oom_reply(VmReply::Done(Err(VmError::Terminated))) == VmReply::Done(
            Err(VmError::OutOfMemory),
        ),
        oom_reply(VmReply::ModuleCompiled(Err(VmError::Terminated))) == VmReply::ModuleCompiled(
            Err(VmError::OutOfMemory),
        ),
        oom_reply(VmReply::ScriptCompiled(Err(VmError::Terminated))) == VmReply::ScriptCompiled(
            Err(VmError::OutOfMemory),
        ),
        oom_reply(VmReply::CodeCache(Err(VmError::Terminated))) == VmReply::CodeCache(
            Err(VmError::OutOfMemory),
        ),
        oom_reply(VmReply::Done(Ok(value))) == VmReply::Done(Ok(value)),
        oom_reply(VmReply::Done(Err(error))) == VmReply::Done(Err(error)),
        oom_reply(VmReply::ModuleCompiled(Ok(compiled))) == VmReply::ModuleCompiled(Ok(compiled)),
        oom_reply(VmReply::ModuleCompiled(Err(error))) == VmReply::ModuleCompiled(Err(error)),
        oom_reply(VmReply::ScriptCompiled(Ok(compiled))) == VmReply::ScriptCompiled(Ok(compiled)),
        oom_reply(VmReply::ScriptCompiled(Err(error))) == VmReply::ScriptCompiled(Err(error)),
        oom_reply(VmReply::CodeCache(Ok(bytes))) == VmReply::CodeCache(Ok(bytes)),
        oom_reply(VmReply::CodeCache(Err(error))) == VmReply::CodeCache(Err(error)),
        oom_reply(VmReply::Heap(stats)) == VmReply::Heap(stats),
        oom_reply(oom_reply(reply)) == oom_reply(reply),
{
}

/// A module counts as linked once it has been linked, whatever came after: it runs,
/// has run or has failed.
pub proof fn law_linked_modules_stay_linked(status: ModuleStatus)
    ensures
        status.linked() <==> status is Instantiated || status is Evaluating || status is Evaluated
            || status is Errored,
{
}

/// Each number of the heap is found under its own name.
pub proof fn law_heap_numbers_have_their_names(stats: HeapStats)
    ensures
        stats.named_numbers().len() == 8,
        stats.named_numbers().contains(("used_heap_size"@, stats.used_heap_size)),
        stats.named_numbers().contains(("total_heap_size"@, stats.total_heap_size)),
        stats.named_numbers().contains(("heap_size_limit"@, stats.heap_size_limit)),
        stats.named_numbers().contains(("malloced_memory"@, stats.malloced_memory)),
        stats.named_numbers().contains(("peak_malloced_memory"@, stats.peak_malloced_memory)),
        stats.named_numbers().contains(("external_memory"@, stats.external_memory)),
        stats.named_numbers().contains(
            ("number_of_native_contexts"@, stats.number_of_native_contexts),
        ),
        stats.named_numbers().contains(
            ("number_of_detached_contexts"@, stats.number_of_detached_contexts),
        ),
{
    let all = stats.named_numbers();
    assert(all[0] == ("used_heap_size"@, stats.used_heap_size));
    assert(all[1] == ("total_heap_size"@, stats.total_heap_size));
    assert(all[2] == ("heap_size_limit"@, stats.heap_size_limit));
    assert(all[3] == ("malloced_memory"@, stats.malloced_memory));
    assert(all[4] == ("peak_malloced_memory"@, stats.peak_malloced_memory));
    assert(all[5] == ("external_memory"@, stats.external_memory));
    assert(all[6] == ("number_of_native_contexts"@, stats.number_of_native_contexts));
    assert(all[7] == ("number_of_detached_contexts"@, stats.number_of_detached_contexts));
}

} // verus!
