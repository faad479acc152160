//! Which stack an operation runs on, and how the engine is told.
//!
//! The engine runs on whatever stack the calling code is on: the native thread's
//! own, or the separately mapped stack of a fiber. It has to be given a limit
//! that lies between the stack pointer and the real bottom of that stack, and a
//! point up to which its garbage collector may scan.

use vstd::prelude::*;

use crate::hex::hex_u64;
use crate::hex::parse_hex;

verus! {

/// Left below the limit of a native stack for the frames that throw.
pub const NATIVE_GUARD: usize = 131072;

/// Left below the limit of a fiber's stack for the frames that throw.
pub const FIBER_RESERVE: usize = 65536;

/// The limit of a stack that is nearly full stays this far below the stack pointer.
pub const STACK_SLACK: usize = 8192;

/// What a fiber is given to use below the stack pointer where its bounds are
/// not known.
pub const BLIND_BUDGET: usize = 65536;

/// What the thread library says of the current thread's stack.
#[derive(Debug, Clone, Copy, PartialEq, Eq, Structural)]
pub enum StackQuery {
    /// Nothing.
    Unavailable,
    /// Its lowest address and its size.
    Base { addr: usize, size: usize },
    /// Its highest address and its size.
    Top { top: usize, size: usize },
}

/// The stack ends within the address space.
pub open spec fn query_fits(query: StackQuery) -> bool {
    query matches StackQuery::Base { addr, size } ==> addr + size <= usize::MAX
}

/// Bottom and top of a thread's stack, zeros where they are not known.
pub open spec fn stack_bounds(query: StackQuery) -> (usize, usize) {
    match query {
        StackQuery::Unavailable => (0, 0),
        StackQuery::Base { addr, size } => (addr, (addr + size) as usize),
        StackQuery::Top { top, size } => (
            if size <= top {
                (top - size) as usize
            } else {
                0
            },
            top,
        ),
    }
}

/// Bottom and top of the native thread's stack, zeros where they are not known.
pub fn native_stack_bounds(query: StackQuery) -> (bounds: (usize, usize))
    requires
        query_fits(query),
    ensures
        bounds == stack_bounds(query),
{
    match query {
        StackQuery::Unavailable => (0, 0),
        StackQuery::Base { addr, size } => (addr, addr + size),
        StackQuery::Top { top, size } => (
            if size <= top {
                top - size
            } else {
                0
            },
            top,
        ),
    }
}

/// Bottom and top of the native thread's stack, asked for once. `cache` belongs
/// to the native thread; it is filled when its first half is not zero.
pub fn native_stack_bounds_cached<F: FnOnce() -> StackQuery>(
    cache: &mut (usize, usize),
    query: F,
) -> (bounds: (usize, usize))
    requires
        call_requires(query, ()),
        forall|q: StackQuery| #[trigger] call_ensures(query, (), q) ==> query_fits(q),
    ensures
        *final(cache) == bounds,
        old(cache).0 != 0 ==> bounds == *old(cache),
        old(cache).0 == 0 ==> exists|q: StackQuery| #[trigger]
            call_ensures(query, (), q) && bounds == stack_bounds(q),
{
    if cache.0 != 0 {
        return *cache;
    }
    let bounds = native_stack_bounds(query());
    *cache = bounds;
    bounds
}

const BYTE_NEWLINE: u8 = 0x0a;

const BYTE_SPACE: u8 = 0x20;

const BYTE_DASH: u8 = 0x2d;

/// Where the byte first stands in `bytes[from..to]`; `to` if nowhere.
pub open spec fn first_byte(bytes: Seq<u8>, byte: u8, from: int, to: int) -> int
    decreases to - from,
{
    if from >= to || bytes[from] == byte {
        from
    } else {
        first_byte(bytes, byte, from + 1, to)
    }
}

fn find_byte(bytes: &[u8], byte: u8, from: usize, to: usize) -> (at: usize)
    requires
        from <= to <= bytes@.len(),
    ensures
        at == first_byte(bytes@, byte, from as int, to as int),
        from <= at <= to,
{
    let mut at: usize = from;
    while at < to && bytes[at] != byte
        invariant
            from <= at <= to <= bytes@.len(),
            first_byte(bytes@, byte, at as int, to as int) == first_byte(
                bytes@,
                byte,
                from as int,
                to as int,
            ),
        decreases to - at,
    {
        at = at + 1;
    }
    at
}

/// A hexadecimal address.
pub open spec fn address(bytes: Seq<u8>) -> Option<usize> {
    match hex_u64(bytes) {
        Some(n) => if n <= usize::MAX {
            Some(n as usize)
        } else {
            None
        },
        None => None,
    }
}

fn parse_address(bytes: &[u8], from: usize, to: usize) -> (addr: Option<usize>)
    requires
        from <= to <= bytes@.len(),
    ensures
        addr == address(bytes@.subrange(from as int, to as int)),
{
    match parse_hex(bytes, from, to) {
        Some(n) => if n <= usize::MAX as u64 {
            Some(n as usize)
        } else {
            None
        },
        None => None,
    }
}

/// The address range at the head of the line `bytes[from..to]` of a memory map:
/// two addresses with a dash between them, up to the first space.
pub open spec fn line_range(bytes: Seq<u8>, from: int, to: int) -> Option<(usize, usize)> {
    let space = first_byte(bytes, 0x20, from, to);
    let dash = first_byte(bytes, 0x2d, from, space);
    if space >= to || dash >= space {
        None
    } else {
        match (address(bytes.subrange(from, dash)), address(bytes.subrange(dash + 1, space))) {
            (Some(lo), Some(hi)) => Some((lo, hi)),
            _ => None,
        }
    }
}

fn parse_line(bytes: &[u8], from: usize, to: usize) -> (range: Option<(usize, usize)>)
    requires
        from <= to <= bytes@.len(),
    ensures
        range == line_range(bytes@, from as int, to as int),
{
    let space: usize = find_byte(bytes, BYTE_SPACE, from, to);
    let dash: usize = find_byte(bytes, BYTE_DASH, from, space);
    if space >= to || dash >= space {
        return None;
    }
    match (parse_address(bytes, from, dash), parse_address(bytes, dash + 1, space)) {
        (Some(lo), Some(hi)) => Some((lo, hi)),
        _ => None,
    }
}

/// The range of one line, if it holds the address.
pub open spec fn line_holds(range: Option<(usize, usize)>, addr: usize) -> bool {
    range matches Some((lo, hi)) && lo <= addr < hi
}

/// The first range of a memory map, from the line at `from` on, that holds the
/// address; zeros if none does.
pub open spec fn region_from(bytes: Seq<u8>, from: int, addr: usize) -> (usize, usize)
    decreases bytes.len() - from,
{
    let end = first_byte(bytes, 0x0a, from, bytes.len() as int);
    if from < 0 || from >= bytes.len() {
        (0, 0)
    } else if line_holds(line_range(bytes, from, end), addr) {
        line_range(bytes, from, end).unwrap()
    } else if from <= end < bytes.len() {
        region_from(bytes, end + 1, addr)
    } else {
        (0, 0)
    }
}

/// The region of a memory map, if there is a map, that holds the address.
pub open spec fn region_in(maps: Option<Seq<char>>, addr: usize) -> (usize, usize) {
    match maps {
        Some(text) => region_from(vstd::utf8::encode_utf8(text), 0, addr),
        None => (0, 0),
    }
}

/// The region of a memory map that holds the address; zeros if there is no map,
/// or none does.
pub fn query_region_bounds(maps: Option<&str>, addr: usize) -> (bounds: (usize, usize))
    ensures
        bounds == region_in(
            match maps {
                Some(text) => Some(text@),
                None => None,
            },
            addr,
        ),
        bounds.0 != 0 ==> region_known(bounds, addr),
{
    let text = match maps {
        Some(text) => text,
        None => {
            return (0, 0);
        },
    };
    let bytes = text.as_bytes();
    let mut from: usize = 0;
    while from < bytes.len()
        invariant
            from <= bytes@.len(),
            region_from(bytes@, from as int, addr) == region_from(bytes@, 0, addr),
            bytes@ == vstd::utf8::encode_utf8(text@),
            maps == Some(text),
        decreases bytes@.len() - from,
    {
        let end: usize = find_byte(bytes, BYTE_NEWLINE, from, bytes.len());
        if let Some((lo, hi)) = parse_line(bytes, from, end) {
            if addr >= lo && addr < hi {
                return (lo, hi);
            }
        }
        if end == bytes.len() {
            return (0, 0);
        }
        from = end + 1;
    }
    (0, 0)
}

/// The region that holds the address, looked up only when the one found last
/// does not. `cache` belongs to the native thread; a lookup that finds nothing
/// leaves it as it was.
pub fn current_region_bounds_cached<F: FnOnce() -> Option<String>>(
    cache: &mut (usize, usize),
    addr: usize,
    read_maps: F,
) -> (bounds: (usize, usize))
    requires
        call_requires(read_maps, ()),
    ensures
        bounds.0 != 0 ==> region_known(bounds, addr),
        region_known(*old(cache), addr) ==> bounds == *old(cache) && *final(cache) == *old(cache),
        !region_known(*old(cache), addr) ==> {
            &&& exists|maps: Option<String>| #[trigger]
                call_ensures(read_maps, (), maps) && bounds == region_in(text_of(maps), addr)
            &&& *final(cache) == (if bounds.0 != 0 {
                bounds
            } else {
                *old(cache)
            })
        },
{
    if cache.0 != 0 && addr >= cache.0 && addr < cache.1 {
        return *cache;
    }
    let maps = read_maps();
    let bounds = match &maps {
        Some(text) => query_region_bounds(Some(text.as_str()), addr),
        None => query_region_bounds(None, addr),
    };
    if bounds.0 != 0 {
        *cache = bounds;
    }
    bounds
}

/// The region is a real one and holds the address.
pub open spec fn region_known(region: (usize, usize), addr: usize) -> bool {
    region.0 != 0 && region.0 <= addr < region.1
}

pub open spec fn text_of(text: Option<String>) -> Option<Seq<char>> {
    match text {
        Some(s) => Some(s@),
        None => None,
    }
}

/// How the engine sees the stack at present.
#[derive(Debug, Clone, Copy, PartialEq, Eq, Structural)]
pub struct StackView {
    /// The lowest address that it may use; zero before the first operation.
    pub limit: usize,
    /// Where its garbage collector's scan ends.
    pub scan_start: usize,
}

/// Where an operation stands when it starts.
#[derive(Debug, Clone, Copy, PartialEq, Eq)]
pub struct StackSpot {
    /// The stack pointer.
    pub sp: usize,
    /// Bottom and top of the native thread's stack, zeros where not known.
    pub native: (usize, usize),
    /// The top of the native stack as the engine knows it.
    pub native_top: usize,
    /// An address above every frame of the operation.
    pub stack_top: usize,
    /// The scan start of the operation around this one, taken before the isolate
    /// was entered; `None` for an outermost operation.
    pub enclosing_scan_start: Option<usize>,
    /// Can the scan start be set at all?
    pub scan_start_known: bool,
}

impl StackSpot {
    /// The stack pointer lies on the native stack.
    pub open spec fn on_native(self) -> bool {
        self.native.0 != 0 && self.native.0 < self.sp <= self.native.1
    }

    /// The limit for the stack that the operation is on. `region` holds the stack
    /// pointer, if it is known.
    pub open spec fn limit(self, region: (usize, usize)) -> int {
        if self.on_native() {
            if self.native.0 + NATIVE_GUARD < self.sp {
                self.native.0 + NATIVE_GUARD
            } else {
                near_the_end(self.native.0, self.sp)
            }
        } else if region.0 != 0 {
            if region.0 + FIBER_RESERVE + STACK_SLACK <= self.sp {
                region.0 + FIBER_RESERVE
            } else {
                near_the_end(region.0, self.sp)
            }
        } else {
            less(self.sp, BLIND_BUDGET)
        }
    }

    /// The bottom of the stack that the operation is on; zero if it is not known.
    pub open spec fn bottom(self, region: (usize, usize)) -> usize {
        if self.on_native() {
            self.native.0
        } else {
            region.0
        }
    }

    /// The limit lies on the stack that the operation is on, below the stack pointer
    /// and above the bottom. Where nothing is left between these two, or the bottom
    /// is not known, nothing is said.
    pub open spec fn limit_lies_between(self, region: (usize, usize), limit: usize) -> bool {
        let bottom = self.bottom(region);
        bottom != 0 && bottom + 1 < self.sp ==> bottom < limit < self.sp
    }

    /// Where the scan ends for the stack that the operation is on: as far up as
    /// that stack is known to be mapped. On a fiber that the enclosing operation
    /// is on too, that is the enclosing operation's own start.
    pub open spec fn scan_start(self, region: (usize, usize)) -> usize {
        if self.on_native() {
            self.native_top
        } else if region.0 != 0 && (self.enclosing_scan_start matches Some(start) && self.sp < start
            < region.1) {
            self.enclosing_scan_start.unwrap()
        } else {
            self.stack_top
        }
    }
}

/// The limit of a stack that has no room for what is to be kept below it: a little
/// below the stack pointer, or, if not even that is left, halfway to the bottom.
pub open spec fn near_the_end(bottom: usize, sp: usize) -> int {
    if bottom + STACK_SLACK < sp {
        sp - STACK_SLACK
    } else {
        bottom + (sp - bottom) / 2
    }
}

fn limit_near_the_end(bottom: usize, sp: usize) -> (limit: usize)
    requires
        bottom <= sp,
    ensures
        limit == near_the_end(bottom, sp),
{
    if sp - bottom > STACK_SLACK {
        sp - STACK_SLACK
    } else {
        bottom + (sp - bottom) / 2
    }
}

/// `a - b`, or zero.
pub open spec fn less(a: usize, b: usize) -> int {
    if a >= b {
        a - b
    } else {
        0
    }
}

fn minus(a: usize, b: usize) -> (c: usize)
    ensures
        c == less(a, b),
{
    if a >= b {
        a - b
    } else {
        0
    }
}

/// What the end of an operation puts back; a zero stands for nothing.
#[derive(Debug, Clone, Copy, PartialEq, Eq, Structural)]
pub struct StackScope {
    pub restore_limit: usize,
    pub restore_scan_start: usize,
}

/// The engine's view of the stack once an operation has started there, and what
/// its end puts back. Only a nested operation owes anything to the one around
/// it, and only what it changed.
pub open spec fn entered(
    view: StackView,
    spot: StackSpot,
    region: (usize, usize),
) -> (StackView, StackScope) {
    let limit = spot.limit(region) as usize;
    let start = spot.scan_start(region);
    let nested = spot.enclosing_scan_start is Some;
    let enclosing = match spot.enclosing_scan_start {
        Some(s) => s,
        None => 0,
    };
    let set_start = spot.scan_start_known && start != 0;
    if limit == 0 {
        (view, StackScope { restore_limit: 0, restore_scan_start: 0 })
    } else {
        (
            StackView {
                limit,
                scan_start: if set_start {
                    start
                } else {
                    view.scan_start
                },
            },
            StackScope {
                restore_limit: if nested && limit != view.limit {
                    view.limit
                } else {
                    0
                },
                restore_scan_start: if set_start && nested && enclosing != start {
                    enclosing
                } else {
                    0
                },
            },
        )
    }
}

/// The engine's view of the stack once an operation has ended.
pub open spec fn left(view: StackView, scope: StackScope) -> StackView {
    StackView {
        limit: if scope.restore_limit != 0 {
            scope.restore_limit
        } else {
            view.limit
        },
        scan_start: if scope.restore_scan_start != 0 {
            scope.restore_scan_start
        } else {
            view.scan_start
        },
    }
}

impl StackScope {
    /// Describes the stack that an operation runs on, until `leave`. The isolate
    /// is entered already. The region that the stack pointer lies in is looked
    /// up only off the native stack.
    pub fn enter<F: FnOnce() -> Option<String>>(
        view: &mut StackView,
        spot: StackSpot,
        region_cache: &mut (usize, usize),
        read_maps: F,
    ) -> (scope: StackScope)
        requires
            call_requires(read_maps, ()),
        ensures
            spot.on_native() || region_known(*old(region_cache), spot.sp) ==> {
                &&& (*final(view), scope) == entered(*old(view), spot, *old(region_cache))
                &&& spot.limit_lies_between(*old(region_cache), final(view).limit)
                &&& *final(region_cache) == *old(region_cache)
            },
            !spot.on_native() && !region_known(*old(region_cache), spot.sp) ==> {
                exists|maps: Option<String>| #[trigger]
                    call_ensures(read_maps, (), maps) && {
                        let region = region_in(text_of(maps), spot.sp);
                        &&& (*final(view), scope) == entered(*old(view), spot, region)
                        &&& spot.limit_lies_between(region, final(view).limit)
                        &&& *final(region_cache) == (if region.0 != 0 {
                            region
                        } else {
                            *old(region_cache)
                        })
                    }
            },
    {
        let on_native = spot.native.0 != 0 && spot.sp > spot.native.0 && spot.sp <= spot.native.1;
        let region: (usize, usize) = if on_native {
            (0, 0)
        } else {
            current_region_bounds_cached(region_cache, spot.sp, read_maps)
        };
        let limit: usize = if on_native {
            if spot.sp - spot.native.0 > NATIVE_GUARD {
                spot.native.0 + NATIVE_GUARD
            } else {
                limit_near_the_end(spot.native.0, spot.sp)
            }
        } else if region.0 != 0 {
            if spot.sp - region.0 >= FIBER_RESERVE + STACK_SLACK {
                region.0 + FIBER_RESERVE
            } else {
                limit_near_the_end(region.0, spot.sp)
            }
        } else {
            minus(spot.sp, BLIND_BUDGET)
        };
        if limit == 0 {
            return StackScope { restore_limit: 0, restore_scan_start: 0 };
        }
        let nested = spot.enclosing_scan_start.is_some();
        let enclosing: usize = match spot.enclosing_scan_start {
            Some(start) => start,
            None => 0,
        };
        let prev_limit: usize = view.limit;
        let restore_limit: usize = if nested && limit != prev_limit {
            prev_limit
        } else {
            0
        };
        view.limit = limit;
        let start: usize = if on_native {
            spot.native_top
        } else if nested && region.0 != 0 && enclosing > spot.sp && enclosing < region.1 {
            enclosing
        } else {
            spot.stack_top
        };
        let restore_scan_start: usize = if spot.scan_start_known && start != 0 {
            view.scan_start = start;
            if nested && enclosing != start {
                enclosing
            } else {
                0
            }
        } else {
            0
        };
        StackScope { restore_limit, restore_scan_start }
    }

    /// Puts back what the operation around this one had described.
    pub fn leave(self, view: &mut StackView)
        ensures
            *final(view) == left(*old(view), self),
    {
        if self.restore_scan_start != 0 {
            view.scan_start = self.restore_scan_start;
        }
        if self.restore_limit != 0 {
            view.limit = self.restore_limit;
        }
    }
}

/// A nested operation leaves the engine with the view of the stack that the
/// operation around it had set: its limit, and its scan start as it was before
/// the isolate was entered again. This holds whatever stack the nested operation
/// ran on.
pub proof fn law_nested_stack_is_restored(
    view: StackView,
    spot: StackSpot,
    region: (usize, usize),
    enclosing: usize,
)
    requires
        spot.enclosing_scan_start == Some(enclosing),
        enclosing != 0,
        spot.scan_start_known,
        spot.scan_start(region) != 0,
        0 < spot.limit(region) <= usize::MAX,
        view.limit != 0,
    ensures
        ({
            let (during, scope) = entered(view, spot, region);
            left(during, scope) == (StackView { limit: view.limit, scan_start: enclosing })
        }),
{
}

/// An operation on the native stack gets a limit between the bottom of that stack
/// and its stack pointer, and, if there is room for the guard, one that keeps the
/// guard above the bottom.
pub proof fn law_native_limit(spot: StackSpot, region: (usize, usize))
    requires
        spot.on_native(),
        spot.native.0 + 1 < spot.sp,
    ensures
        spot.native.0 < spot.limit(region) < spot.sp,
        spot.sp - spot.native.0 > NATIVE_GUARD ==> spot.limit(region) == spot.native.0
            + NATIVE_GUARD,
{
}

/// An operation on a fiber whose bounds are known gets a limit between the fiber's
/// bottom and its stack pointer, and, if the fiber has room for the reserve, one
/// that keeps the reserve above the bottom.
pub proof fn law_fiber_limit(spot: StackSpot, region: (usize, usize))
    requires
        !spot.on_native(),
        region_known(region, spot.sp),
        region.0 + 1 < spot.sp,
    ensures
        region.0 < spot.limit(region) < spot.sp,
        spot.sp - region.0 > STACK_SLACK ==> spot.limit(region) <= spot.sp - STACK_SLACK,
        spot.sp - region.0 >= FIBER_RESERVE + STACK_SLACK ==> spot.limit(region) == region.0
            + FIBER_RESERVE,
{
}

/// How far the search for the scan start field has come. The field is believed
/// only if setting the scan start writes that very word, twice.
#[derive(Debug, Clone, Copy, PartialEq, Eq, Structural)]
pub enum ScanProbe {
    /// Ask for the isolate's heap.
    Heap,
    /// Ask for the heap's stack object.
    Stack,
    /// Ask for the top of the native stack.
    NativeTop { stack: usize },
    /// Have the engine set its scan start, then read the word at `stack`.
    SetAndRead { stack: usize, native_top: usize },
    /// Write a pattern to the word at `stack`, have the engine set its scan start
    /// again, then read the word.
    SpoilAndRead { stack: usize, native_top: usize },
    /// The field's address, or zero if it was not found.
    Done(usize),
}

impl ScanProbe {
    pub open spec fn after(self, answer: usize) -> ScanProbe {
        match self {
            ScanProbe::Heap => if answer == 0 {
                ScanProbe::Done(0)
            } else {
                ScanProbe::Stack
            },
            ScanProbe::Stack => if answer == 0 {
                ScanProbe::Done(0)
            } else {
                ScanProbe::NativeTop { stack: answer }
            },
            ScanProbe::NativeTop { stack } => if answer == 0 {
                ScanProbe::Done(0)
            } else {
                ScanProbe::SetAndRead { stack, native_top: answer }
            },
            ScanProbe::SetAndRead { stack, native_top } => if answer != native_top {
                ScanProbe::Done(0)
            } else {
                ScanProbe::SpoilAndRead { stack, native_top }
            },
            ScanProbe::SpoilAndRead { stack, native_top } => if answer != native_top {
                ScanProbe::Done(0)
            } else {
                ScanProbe::Done(stack)
            },
            ScanProbe::Done(field) => ScanProbe::Done(field),
        }
    }

    /// The next step, once the present one has been answered.
    pub fn next(self, answer: usize) -> (probe: ScanProbe)
        ensures
            probe == self.after(answer),
    {
        match self {
            ScanProbe::Heap => if answer == 0 {
                ScanProbe::Done(0)
            } else {
                ScanProbe::Stack
            },
            ScanProbe::Stack => if answer == 0 {
                ScanProbe::Done(0)
            } else {
                ScanProbe::NativeTop { stack: answer }
            },
            ScanProbe::NativeTop { stack } => if answer == 0 {
                ScanProbe::Done(0)
            } else {
                ScanProbe::SetAndRead { stack, native_top: answer }
            },
            ScanProbe::SetAndRead { stack, native_top } => if answer != native_top {
                ScanProbe::Done(0)
            } else {
                ScanProbe::SpoilAndRead { stack, native_top }
            },
            ScanProbe::SpoilAndRead { stack, native_top } => if answer != native_top {
                ScanProbe::Done(0)
            } else {
                ScanProbe::Done(stack)
            },
            ScanProbe::Done(field) => ScanProbe::Done(field),
        }
    }
}

/// The field is found just when the heap, its stack object and the native top
/// are there and both readings give the native top.
pub proof fn law_scan_field_is_verified(
    heap: usize,
    stack: usize,
    native_top: usize,
    first: usize,
    second: usize,
)
    ensures
        ScanProbe::Heap.after(heap).after(stack).after(native_top).after(first).after(second)
            == ScanProbe::Done(
            if heap != 0 && stack != 0 && native_top != 0 && first == native_top && second
                == native_top {
                stack
            } else {
                0
            },
        ),
{
}

/// The bounds of a thread's stack are what the thread library says: its lowest address
/// and its size, or its highest and its size. Where it says nothing, both are zero.
pub proof fn law_stack_bounds_are_as_told(addr: usize, size: usize)
    ensures
        addr + size <= usize::MAX ==> {
            let (bottom, top) = stack_bounds(StackQuery::Base { addr, size });
            bottom == addr && top == addr + size
        },
        size <= addr ==> {
            let (bottom, top) = stack_bounds(StackQuery::Top { top: addr, size });
            bottom == addr - size && top == addr
        },
        size > addr ==> stack_bounds(StackQuery::Top { top: addr, size }) == (0usize, addr),
        stack_bounds(StackQuery::Unavailable) == (0usize, 0usize),
{
}

/// The garbage collector scans up to the top of the native stack for an operation
/// there. On a fiber it scans up to where the operation around began, if that is on
/// the same fiber further up; otherwise up to this operation's own frames.
pub proof fn law_scan_ends_on_its_own_stack(spot: StackSpot, region: (usize, usize), start: usize)
    ensures
        spot.on_native() ==> spot.scan_start(region) == spot.native_top,
        !spot.on_native() && region_known(region, spot.sp) && spot.enclosing_scan_start == Some(
            start,
        ) && spot.sp < start < region.1 ==> spot.scan_start(region) == start,
        !spot.on_native() && spot.enclosing_scan_start == Some(start) && !(spot.sp < start
            < region.1) ==> spot.scan_start(region) == spot.stack_top,
        !spot.on_native() && spot.enclosing_scan_start is None ==> spot.scan_start(region)
            == spot.stack_top,
        !spot.on_native() && region.0 == 0 ==> spot.scan_start(region) == spot.stack_top,
        spot.on_native() <==> spot.native.0 != 0 && spot.native.0 < spot.sp <= spot.native.1,
{
}

/// On a fiber whose bounds are not known, so much of the stack below the stack
/// pointer may be used and no more.
pub proof fn law_blind_limit(spot: StackSpot)
    requires
        !spot.on_native(),
    ensures
        spot.sp >= 65536 ==> spot.limit((0, 0)) == spot.sp - 65536,
        spot.sp < 65536 ==> spot.limit((0, 0)) == 0,
{
}

/// While an operation runs, the engine has that operation's own limit, and its own
/// scan start if that can be set. An outermost operation owes nothing when it ends.
pub proof fn law_operation_sets_its_own_stack(
    view: StackView,
    spot: StackSpot,
    region: (usize, usize),
)
    requires
        0 < spot.limit(region) <= usize::MAX,
    ensures
        ({
            let (during, scope) = entered(view, spot, region);
            &&& during.limit == spot.limit(region)
            &&& spot.scan_start_known && spot.scan_start(region) != 0 ==> during.scan_start
                == spot.scan_start(region)
            &&& !spot.scan_start_known ==> during.scan_start == view.scan_start
            &&& spot.enclosing_scan_start is None ==> left(during, scope) == during
        }),
{
}

/// The region that a memory map is searched for holds the address; if there is none,
/// zeros are given.
pub proof fn law_region_holds_the_address(bytes: Seq<u8>, from: int, addr: usize)
    ensures
        ({
            let (bottom, top) = region_from(bytes, from, addr);
            (bottom, top) == (0usize, 0usize) || bottom <= addr < top
        }),
    decreases bytes.len() - from,
{
    let end = first_byte(bytes, 0x0a, from, bytes.len() as int);
    if 0 <= from < bytes.len() && !line_holds(line_range(bytes, from, end), addr) && from <= end
        < bytes.len() {
        law_region_holds_the_address(bytes, end + 1, addr);
    }
}

proof fn lemma_first_byte(bytes: Seq<u8>, byte: u8, from: int, at: int, to: int)
    requires
        from <= at <= to,
        forall|i: int| from <= i < at ==> bytes[i] != byte,
        at < to ==> bytes[at] == byte,
    ensures
        first_byte(bytes, byte, from, to) == at,
    decreases at - from,
{
    if from < at {
        lemma_first_byte(bytes, byte, from + 1, at, to);
    }
}

/// One line of a memory map that starts at `from`: two hexadecimal addresses with a
/// dash between them, a space, and whatever is behind it, up to the end of the line.
pub open spec fn is_map_line(
    bytes: Seq<u8>,
    from: int,
    dash: int,
    space: int,
    end: int,
    lo: usize,
    hi: usize,
) -> bool {
    &&& 0 <= from < dash && dash + 1 < space < end <= bytes.len()
    &&& bytes[dash] == 0x2d && bytes[space] == 0x20
    &&& end < bytes.len() ==> bytes[end] == 0x0a
    &&& forall|i: int| from <= i < end ==> #[trigger] bytes[i] != 0x0a
    &&& forall|i: int| from <= i < space ==> #[trigger] bytes[i] != 0x20
    &&& forall|i: int| from <= i < dash ==> #[trigger] bytes[i] != 0x2d
    &&& hex_u64(bytes.subrange(from, dash)) == Some(lo as u64)
    &&& hex_u64(bytes.subrange(dash + 1, space)) == Some(hi as u64)
}

/// A line whose range holds the address gives the region; any other is passed over.
pub proof fn law_map_is_searched_line_by_line(
    bytes: Seq<u8>,
    from: int,
    dash: int,
    space: int,
    end: int,
    lo: usize,
    hi: usize,
    addr: usize,
)
    requires
        is_map_line(bytes, from, dash, space, end, lo, hi),
    ensures
        lo <= addr < hi ==> region_from(bytes, from, addr) == (lo, hi),
        !(lo <= addr < hi) && end < bytes.len() ==> region_from(bytes, from, addr) == region_from(
            bytes,
            end + 1,
            addr,
        ),
        !(lo <= addr < hi) && end == bytes.len() ==> region_from(bytes, from, addr) == (0usize, 0usize),
{
    lemma_first_byte(bytes, 0x0a, from, end, bytes.len() as int);
    lemma_first_byte(bytes, 0x20, from, space, end);
    lemma_first_byte(bytes, 0x2d, from, dash, space);
}

/// Below the limit of a native stack that is deep enough, a hundred and twenty-eight
/// kibibytes are kept; of a fiber, sixty-four.
pub proof fn law_room_is_kept_below_the_limit(spot: StackSpot, region: (usize, usize))
    ensures
        spot.on_native() && spot.sp - spot.native.0 > 128 * 1024 ==> spot.limit(region)
            - spot.native.0 == 128 * 1024,
        !spot.on_native() && region_known(region, spot.sp) && spot.sp - region.0 >= 72 * 1024
            ==> spot.limit(region) - region.0 == 64 * 1024,
{
}

/// A region that is remembered is used again just for the addresses in it: from its
/// bottom up, and below its top.
pub proof fn law_region_reaches_up_to_its_top(region: (usize, usize), addr: usize)
    ensures
        !region_known(region, region.1),
        0 < region.0 < region.1 ==> region_known(region, region.0),
        0 < region.0 < region.1 ==> region_known(region, (region.1 - 1) as usize),
        !region_known((0, region.1), addr),
        region_known(region, addr) ==> region.1 - region.0 > addr - region.0 >= 0,
        region.0 > addr ==> !region_known(region, addr),
{
}

/// A line of a memory map without a space, or without a dash in front of the first
/// space, says nothing of any range.
pub proof fn law_lines_without_a_range(bytes: Seq<u8>, from: int, space: int, to: int)
    requires
        from <= space <= to,
        forall|i: int| from <= i < space ==> bytes[i] != 0x20,
        space < to ==> bytes[space] == 0x20,
    ensures
        space == to ==> line_range(bytes, from, to) is None,
        (forall|i: int| from <= i < space ==> bytes[i] != 0x2d) ==> line_range(bytes, from, to) is None,
{
    lemma_first_byte(bytes, 0x20, from, space, to);
    if forall|i: int| from <= i < space ==> bytes[i] != 0x2d {
        lemma_first_byte(bytes, 0x2d, from, space, space);
    }
}

} // verus!
