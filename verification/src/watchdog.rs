//! The execution watchdog: the deadlines that are armed, which of them is due,
//! and what is written down of the script that missed one.
//!
//! Operations nest, so the armed deadlines form a stack. One thread per isolate
//! enforces the earliest of them.

use vstd::prelude::*;

use crate::text::numeral;
use crate::text::write_number;

verus! {

/// How many frames of the script's stack are written down when a deadline is
/// missed.
pub const MAX_TIMEOUT_FRAMES: usize = 32;

/// How many characters of a name are written down. Names come from the script and
/// may be of any length.
pub const MAX_FRAME_NAME: usize = 256;

/// One armed deadline, in nanoseconds on the host's steady clock.
#[derive(Debug, Clone, Copy, PartialEq, Eq, Structural)]
pub struct WatchdogFrame {
    pub generation: u64,
    pub deadline: u128,
}

/// What the watchdog thread does next.
#[derive(Debug, Clone, Copy, PartialEq, Eq, Structural)]
pub enum Wake {
    /// End the thread.
    Stop,
    /// Sleep until something changes.
    Sleep,
    /// Sleep until something changes, at most this many nanoseconds.
    SleepFor(u128),
    /// A deadline has passed: have the isolate at this address interrupted.
    Interrupt(usize),
    /// A deadline has passed: terminate the script outright.
    Terminate,
}

/// The watchdog's state, shared between an isolate and its watchdog thread.
#[derive(Debug)]
pub struct WatchdogShared {
    frames: Vec<WatchdogFrame>,
    next_generation: u64,
    fired_generations: Vec<u64>,
    shutdown: bool,
    iso_ptr: usize,
}

/// What a watchdog's state says.
pub struct Watch {
    /// The armed deadlines, the innermost operation's last.
    pub frames: Seq<WatchdogFrame>,
    /// The generation given out last.
    pub generation: u64,
    /// The generations whose deadlines passed, each until its operation has heard
    /// of it, in the order in which they passed.
    pub fired: Seq<u64>,
    pub shutdown: bool,
    /// The isolate's address; zero until it is known.
    pub iso_ptr: usize,
}

impl Watch {
    /// Each deadline has a generation of its own, none younger than the one given
    /// out last. Those of the armed deadlines rise, and none of these has passed.
    pub open spec fn wf(self) -> bool {
        &&& generations_rise(self.frames, self.generation)
        &&& forall|g: u64| #[trigger] self.fired.contains(g) ==> g <= self.generation
        &&& forall|i: int|
            0 <= i < self.frames.len() ==> !self.fired.contains(
                (#[trigger] self.frames[i]).generation,
            )
    }
}

/// The generations rise, up to `top` at most.
pub open spec fn generations_rise(frames: Seq<WatchdogFrame>, top: u64) -> bool {
    &&& forall|i: int| 0 <= i < frames.len() ==> (#[trigger] frames[i]).generation <= top
    &&& forall|i: int, j: int|
        0 <= i < j < frames.len() ==> frames[i].generation < frames[j].generation
}

/// The frames but for those of one generation.
pub open spec fn without(frames: Seq<WatchdogFrame>, generation: u64) -> Seq<WatchdogFrame>
    decreases frames.len(),
{
    if frames.len() == 0 {
        seq![]
    } else if frames.last().generation == generation {
        without(frames.drop_last(), generation)
    } else {
        without(frames.drop_last(), generation).push(frames.last())
    }
}

/// The generations but for one.
pub open spec fn except(generations: Seq<u64>, generation: u64) -> Seq<u64>
    decreases generations.len(),
{
    if generations.len() == 0 {
        seq![]
    } else if generations.last() == generation {
        except(generations.drop_last(), generation)
    } else {
        except(generations.drop_last(), generation).push(generations.last())
    }
}

/// The position of the earliest deadline; among equals, that of the first.
pub open spec fn earliest(frames: Seq<WatchdogFrame>) -> int
    decreases frames.len(),
{
    if frames.len() <= 1 {
        0
    } else {
        let before = earliest(frames.drop_last());
        if frames.last().deadline < frames[before].deadline {
            frames.len() - 1
        } else {
            before
        }
    }
}

/// The state once a deadline of `timeout_ms` milliseconds has been armed.
pub open spec fn armed(watch: Watch, timeout_ms: u64, now: u128) -> Watch {
    let generation = (watch.generation + 1) as u64;
    Watch {
        frames: watch.frames.push(
            WatchdogFrame { generation, deadline: (now + timeout_ms * 1_000_000) as u128 },
        ),
        generation,
        ..watch
    }
}

/// The state once a deadline has been disarmed.
pub open spec fn disarmed(watch: Watch, generation: u64) -> Watch {
    Watch {
        frames: without(watch.frames, generation),
        fired: except(watch.fired, generation),
        ..watch
    }
}

/// What an operation with this timeout arms, and the state after it.
pub open spec fn arming(watch: Watch, timeout_ms: u64, now: u128) -> (Option<u64>, Watch) {
    if timeout_ms == 0 {
        (None, watch)
    } else {
        (Some((watch.generation + 1) as u64), armed(watch, timeout_ms, now))
    }
}

/// Whether the deadline that an operation had armed has passed, and the state once it
/// is disarmed.
pub open spec fn disarming(watch: Watch, generation: Option<u64>) -> (bool, Watch) {
    match generation {
        Some(g) => (watch.fired.contains(g), disarmed(watch, g)),
        None => (false, watch),
    }
}

/// What the watchdog thread does next, and the state after it. A deadline that
/// has passed is taken off, so that it is enforced once.
pub open spec fn woken(watch: Watch, now: u128) -> (Wake, Watch) {
    if watch.shutdown {
        (Wake::Stop, watch)
    } else if watch.frames.len() == 0 {
        (Wake::Sleep, watch)
    } else {
        let frame = watch.frames[earliest(watch.frames)];
        if now < frame.deadline {
            (Wake::SleepFor((frame.deadline - now) as u128), watch)
        } else {
            (
                if watch.iso_ptr != 0 {
                    Wake::Interrupt(watch.iso_ptr)
                } else {
                    Wake::Terminate
                },
                Watch {
                    frames: without(watch.frames, frame.generation),
                    fired: watch.fired.push(frame.generation),
                    ..watch
                },
            )
        }
    }
}

impl WatchdogShared {
    pub closed spec fn view(&self) -> Watch {
        Watch {
            frames: self.frames@,
            generation: self.next_generation,
            fired: self.fired_generations@,
            shutdown: self.shutdown,
            iso_ptr: self.iso_ptr,
        }
    }

    /// Nothing armed, nothing fired, no isolate yet.
    pub fn new() -> (shared: WatchdogShared)
        ensures
            shared@ == (Watch {
                frames: seq![],
                generation: 0,
                fired: seq![],
                shutdown: false,
                iso_ptr: 0,
            }),
            shared@.wf(),
    {
        WatchdogShared {
            frames: Vec::new(),
            next_generation: 0,
            fired_generations: Vec::new(),
            shutdown: false,
            iso_ptr: 0,
        }
    }

    /// Takes note of where the isolate is.
    pub fn set_iso_ptr(&mut self, iso_ptr: usize)
        ensures
            final(self)@ == (Watch { iso_ptr, ..old(self)@ }),
    {
        self.iso_ptr = iso_ptr;
    }

    /// Has the watchdog thread end the next time it looks.
    pub fn request_shutdown(&mut self)
        ensures
            final(self)@ == (Watch { shutdown: true, ..old(self)@ }),
    {
        self.shutdown = true;
    }

    fn drop_frame(&mut self, generation: u64)
        ensures
            final(self)@ == (Watch { frames: without(old(self)@.frames, generation), ..old(self)@ }),
    {
        let mut kept: Vec<WatchdogFrame> = Vec::new();
        let mut i: usize = 0;
        assert(self.frames@.take(0) =~= seq![]);
        while i < self.frames.len()
            invariant
                i <= self.frames@.len(),
                kept@ == without(self.frames@.take(i as int), generation),
            decreases self.frames@.len() - i,
        {
            let frame = self.frames[i];
            assert(self.frames@.take(i + 1).drop_last() =~= self.frames@.take(i as int));
            if frame.generation != generation {
                kept.push(frame);
            }
            i = i + 1;
        }
        assert(self.frames@.take(i as int) =~= self.frames@);
        self.frames = kept;
    }

    fn drop_fired(&mut self, generation: u64) -> (found: bool)
        ensures
            found == old(self)@.fired.contains(generation),
            final(self)@ == (Watch { fired: except(old(self)@.fired, generation), ..old(self)@ }),
    {
        let ghost all = self.fired_generations@;
        let mut kept: Vec<u64> = Vec::new();
        let mut found = false;
        let mut i: usize = 0;
        assert(all.take(0) =~= seq![]);
        while i < self.fired_generations.len()
            invariant
                all == self.fired_generations@,
                i <= all.len(),
                kept@ == except(all.take(i as int), generation),
                found == exists|j: int| 0 <= j < i && all[j] == generation,
            decreases all.len() - i,
        {
            let fired: u64 = self.fired_generations[i];
            assert(all.take(i + 1).drop_last() =~= all.take(i as int));
            if fired == generation {
                found = true;
            } else {
                kept.push(fired);
            }
            i = i + 1;
        }
        assert(all.take(i as int) =~= all);
        self.fired_generations = kept;
        found
    }

    /// Is there a generation left to give out, and does the clock reach as far as the
    /// deadline?
    pub fn has_room(&self, timeout_ms: u64, now: u128) -> (room: bool)
        ensures
            room == (self@.generation < u64::MAX && now + timeout_ms * 1_000_000 <= u128::MAX),
    {
        self.next_generation < u64::MAX && now <= u128::MAX - (timeout_ms as u128) * 1_000_000
    }

    /// Arms a deadline and returns its generation. No timeout arms nothing.
    pub fn arm_watchdog(&mut self, timeout_ms: u64, now: u128) -> (generation: Option<u64>)
        requires
            old(self)@.wf(),
            old(self)@.generation < u64::MAX,
            now + timeout_ms * 1_000_000 <= u128::MAX,
        ensures
            final(self)@.wf(),
            timeout_ms == 0 ==> generation is None && final(self)@ == old(self)@,
            timeout_ms != 0 ==> generation == Some((old(self)@.generation + 1) as u64)
                && final(self)@ == armed(old(self)@, timeout_ms, now),
            (generation, final(self)@) == arming(old(self)@, timeout_ms, now),
    {
        if timeout_ms == 0 {
            return None;
        }
        self.next_generation = self.next_generation + 1;
        let generation: u64 = self.next_generation;
        let deadline: u128 = now + (timeout_ms as u128) * 1_000_000;
        assert(!old(self)@.fired.contains(generation));
        self.frames.push(WatchdogFrame { generation, deadline });
        Some(generation)
    }

    /// Disarms one deadline, whatever else is armed, and says whether it had
    /// passed.
    pub fn disarm_watchdog(&mut self, generation: Option<u64>) -> (fired: bool)
        requires
            old(self)@.wf(),
        ensures
            final(self)@.wf(),
            match generation {
                None => !fired && final(self)@ == old(self)@,
                Some(g) => fired == old(self)@.fired.contains(g) && final(self)@ == disarmed(
                    old(self)@,
                    g,
                ),
            },
            (fired, final(self)@) == disarming(old(self)@, generation),
    {
        let generation: u64 = match generation {
            Some(g) => g,
            None => {
                return false;
            },
        };
        proof {
            lemma_disarmed_wf(self@, generation);
        }
        self.drop_frame(generation);
        self.drop_fired(generation)
    }

    /// One turn of the watchdog thread.
    pub fn watchdog_loop(&mut self, now: u128) -> (wake: Wake)
        requires
            old(self)@.wf(),
        ensures
            final(self)@.wf(),
            (wake, final(self)@) == woken(old(self)@, now),
    {
        if self.shutdown {
            return Wake::Stop;
        }
        if self.frames.len() == 0 {
            return Wake::Sleep;
        }
        let mut best: usize = 0;
        let mut i: usize = 1;
        assert(earliest(self.frames@.take(1)) == 0);
        while i < self.frames.len()
            invariant
                1 <= i <= self.frames@.len(),
                best < i,
                best == earliest(self.frames@.take(i as int)),
            decreases self.frames@.len() - i,
        {
            assert(self.frames@.take(i + 1).drop_last() =~= self.frames@.take(i as int));
            if self.frames[i].deadline < self.frames[best].deadline {
                best = i;
            }
            i = i + 1;
        }
        assert(self.frames@.take(i as int) =~= self.frames@);
        let frame = self.frames[best];
        if now < frame.deadline {
            return Wake::SleepFor(frame.deadline - now);
        }
        proof {
            lemma_woken_wf(self@, now);
        }
        self.fired_generations.push(frame.generation);
        self.drop_frame(frame.generation);
        if self.iso_ptr != 0 {
            Wake::Interrupt(self.iso_ptr)
        } else {
            Wake::Terminate
        }
    }

    /// Is there a deadline that has passed and that its operation has not heard
    /// of? An interrupt cannot be called back, so one that arrives later than
    /// that is to do nothing.
    pub fn interrupt_is_due(&self) -> (due: bool)
        ensures
            due == (self@.fired.len() > 0),
    {
        self.fired_generations.len() > 0
    }
}

/// Every frame that is kept was there, in the same order.
proof fn lemma_without_rises(frames: Seq<WatchdogFrame>, generation: u64, top: u64)
    requires
        generations_rise(frames, top),
    ensures
        generations_rise(without(frames, generation), top),
        frames.len() > 0 ==> generations_rise(
            without(frames, generation),
            frames.last().generation,
        ),
    decreases frames.len(),
{
    if frames.len() > 0 {
        let shorter = frames.drop_last();
        lemma_without_rises(shorter, generation, top);
        if shorter.len() > 0 {
            assert(shorter.last().generation < frames.last().generation);
        }
    }
}

/// A frame is kept just when it is of another generation.
proof fn lemma_without_keeps(frames: Seq<WatchdogFrame>, generation: u64)
    ensures
        forall|frame: WatchdogFrame| #[trigger]
            without(frames, generation).contains(frame) <==> frames.contains(frame)
                && frame.generation != generation,
    decreases frames.len(),
{
    if frames.len() > 0 {
        let shorter = frames.drop_last();
        let kept = without(shorter, generation);
        lemma_without_keeps(shorter, generation);
        assert forall|frame: WatchdogFrame| #[trigger]
            without(frames, generation).contains(frame) <==> frames.contains(frame)
                && frame.generation != generation by {
            assert(frames.contains(frame) <==> shorter.contains(frame) || frame
                == frames.last()) by {
                assert(shorter.push(frames.last()) =~= frames);
                lemma_push_contains(shorter, frames.last(), frame);
            }
            lemma_push_contains(kept, frames.last(), frame);
        }
    }
}

/// A generation is kept just when it is another.
proof fn lemma_except_keeps(generations: Seq<u64>, generation: u64)
    ensures
        forall|g: u64| #[trigger]
            except(generations, generation).contains(g) <==> generations.contains(g) && g
                != generation,
    decreases generations.len(),
{
    if generations.len() > 0 {
        let shorter = generations.drop_last();
        let kept = except(shorter, generation);
        lemma_except_keeps(shorter, generation);
        assert forall|g: u64| #[trigger]
            except(generations, generation).contains(g) <==> generations.contains(g) && g
                != generation by {
            assert(shorter.push(generations.last()) =~= generations);
            lemma_push_contains(shorter, generations.last(), g);
            lemma_push_contains(kept, generations.last(), g);
        }
    }
}

/// What a sequence holds once something has been put at its end.
proof fn lemma_push_contains<A>(s: Seq<A>, a: A, x: A)
    ensures
        s.push(a).contains(x) <==> s.contains(x) || x == a,
{
    if s.contains(x) {
        let i = choose|i: int| 0 <= i < s.len() && s[i] == x;
        assert(s.push(a)[i] == x);
    }
    assert(s.push(a)[s.len() as int] == a);
    if s.push(a).contains(x) && x != a {
        let i = choose|i: int| 0 <= i < s.push(a).len() && s.push(a)[i] == x;
        assert(s[i] == x);
    }
}

/// Generations without that one stay as they are.
proof fn lemma_except_absent(generations: Seq<u64>, generation: u64)
    requires
        !generations.contains(generation),
    ensures
        except(generations, generation) == generations,
    decreases generations.len(),
{
    if generations.len() > 0 {
        let shorter = generations.drop_last();
        assert(shorter.push(generations.last()) =~= generations);
        lemma_push_contains(shorter, generations.last(), generation);
        lemma_except_absent(shorter, generation);
    }
}

/// Taking frames off leaves none of them that has passed.
proof fn lemma_frames_open(watch: Watch, generation: u64, fired: Seq<u64>)
    requires
        watch.wf(),
        forall|g: u64| #[trigger] fired.contains(g) ==> watch.fired.contains(g) || g == generation,
    ensures
        forall|i: int|
            0 <= i < without(watch.frames, generation).len() ==> !fired.contains(
                (#[trigger] without(watch.frames, generation)[i]).generation,
            ),
{
    let kept = without(watch.frames, generation);
    lemma_without_keeps(watch.frames, generation);
    assert forall|i: int| 0 <= i < kept.len() implies !fired.contains(
        (#[trigger] kept[i]).generation,
    ) by {
        assert(kept.contains(kept[i]));
        let j = choose|j: int| 0 <= j < watch.frames.len() && watch.frames[j] == kept[i];
        assert(!watch.fired.contains(watch.frames[j].generation));
    }
}

/// Disarming keeps the state well-formed.
proof fn lemma_disarmed_wf(watch: Watch, generation: u64)
    requires
        watch.wf(),
    ensures
        disarmed(watch, generation).wf(),
{
    lemma_without_rises(watch.frames, generation, watch.generation);
    lemma_except_keeps(watch.fired, generation);
    lemma_frames_open(watch, generation, except(watch.fired, generation));
}

/// A turn of the watchdog thread keeps the state well-formed.
proof fn lemma_woken_wf(watch: Watch, now: u128)
    requires
        watch.wf(),
    ensures
        woken(watch, now).1.wf(),
{
    if !watch.shutdown && watch.frames.len() > 0 {
        lemma_earliest(watch.frames);
        let generation = watch.frames[earliest(watch.frames)].generation;
        let fired = watch.fired.push(generation);
        lemma_without_rises(watch.frames, generation, watch.generation);
        assert forall|g: u64| #[trigger] fired.contains(g) implies watch.fired.contains(g) || g
            == generation by {
            lemma_push_contains(watch.fired, generation, g);
        }
        lemma_frames_open(watch, generation, fired);
    }
}

/// Frames without one of that generation stay as they are.
proof fn lemma_without_absent(frames: Seq<WatchdogFrame>, generation: u64)
    requires
        forall|i: int|
            0 <= i < frames.len() ==> (#[trigger] frames[i]).generation != generation,
    ensures
        without(frames, generation) == frames,
    decreases frames.len(),
{
    if frames.len() > 0 {
        lemma_without_absent(frames.drop_last(), generation);
        assert(frames.drop_last().push(frames.last()) =~= frames);
    }
}

/// A nested operation arms and disarms a deadline of its own in time. It hears of
/// none that was missed; but for the generation that was given out, all is as it
/// was.
pub proof fn law_nested_deadline_leaves_outer_ones(watch: Watch, timeout_ms: u64, now: u128)
    requires
        watch.wf(),
        watch.generation < u64::MAX,
    ensures
        ({
            let generation = (watch.generation + 1) as u64;
            let during = armed(watch, timeout_ms, now);
            &&& !during.fired.contains(generation)
            &&& during.wf()
            &&& disarmed(during, generation) == (Watch { generation, ..watch })
        }),
{
    let generation = (watch.generation + 1) as u64;
    let after = armed(watch, timeout_ms, now);
    assert(after.frames.drop_last() =~= watch.frames);
    lemma_without_absent(watch.frames, generation);
    assert(!watch.fired.contains(generation));
    lemma_except_absent(watch.fired, generation);
}

/// Two operations, one inside the other, end in time. The inner one leaves the
/// outer one's deadline as it was armed, the outer one leaves the deadlines from
/// before it, and neither hears of a missed deadline or takes one off.
pub proof fn law_nested_deadlines_unwind(
    watch: Watch,
    outer_ms: u64,
    outer_now: u128,
    inner_ms: u64,
    inner_now: u128,
)
    requires
        watch.wf(),
        watch.generation + 2 <= u64::MAX,
    ensures
        ({
            let a = (watch.generation + 1) as u64;
            let b = (watch.generation + 2) as u64;
            let outer = armed(watch, outer_ms, outer_now);
            let inner = armed(outer, inner_ms, inner_now);
            &&& !inner.fired.contains(b)
            &&& disarmed(inner, b) == (Watch { generation: b, ..outer })
            &&& !disarmed(inner, b).fired.contains(a)
            &&& disarmed(disarmed(inner, b), a) == (Watch { generation: b, ..watch })
        }),
{
    let outer = armed(watch, outer_ms, outer_now);
    law_nested_deadline_leaves_outer_ones(watch, outer_ms, outer_now);
    law_nested_deadline_leaves_outer_ones(outer, inner_ms, inner_now);
}

/// What fires is the earliest deadline there is, and none that has not passed.
pub proof fn law_earliest_deadline_fires(watch: Watch, now: u128)
    requires
        watch.frames.len() > 0,
        !watch.shutdown,
    ensures
        ({
            let frame = watch.frames[earliest(watch.frames)];
            &&& 0 <= earliest(watch.frames) < watch.frames.len()
            &&& forall|i: int|
                0 <= i < watch.frames.len() ==> frame.deadline <= (
                #[trigger] watch.frames[i]).deadline
            &&& now >= frame.deadline ==> woken(watch, now).1.fired == watch.fired.push(
                frame.generation,
            )
            &&& now < frame.deadline ==> woken(watch, now).1 == watch
        }),
{
    lemma_earliest(watch.frames);
}

proof fn lemma_earliest(frames: Seq<WatchdogFrame>)
    requires
        frames.len() > 0,
    ensures
        0 <= earliest(frames) < frames.len(),
        forall|i: int|
            0 <= i < frames.len() ==> frames[earliest(frames)].deadline <= (
            #[trigger] frames[i]).deadline,
    decreases frames.len(),
{
    if frames.len() > 1 {
        let shorter = frames.drop_last();
        lemma_earliest(shorter);
        assert forall|i: int| 0 <= i < frames.len() implies frames[earliest(frames)].deadline <= (
        #[trigger] frames[i]).deadline by {
            if i < frames.len() - 1 {
                assert(shorter[i] == frames[i]);
            }
        }
    }
}

/// An operation hears of its missed deadline exactly once. Until it asks, no
/// other operation's arming or disarming and no other deadline that passes makes
/// it forgotten; once it has asked, the deadline never passes again.
pub proof fn law_fired_deadline_is_heard_once(
    watch: Watch,
    generation: u64,
    other: u64,
    timeout_ms: u64,
    now: u128,
)
    requires
        watch.wf(),
        watch.fired.contains(generation),
        other != generation,
    ensures
        armed(watch, timeout_ms, now).fired.contains(generation),
        disarmed(watch, other).fired.contains(generation),
        woken(watch, now).1.fired.contains(generation),
        !disarmed(watch, generation).fired.contains(generation),
        !woken(disarmed(watch, generation), now).1.fired.contains(generation),
{
    lemma_except_keeps(watch.fired, other);
    lemma_except_keeps(watch.fired, generation);
    lemma_without_keeps(watch.frames, generation);
    let heard = disarmed(watch, generation);
    if watch.frames.len() > 0 {
        lemma_push_contains(
            watch.fired,
            watch.frames[earliest(watch.frames)].generation,
            generation,
        );
    }
    if heard.frames.len() > 0 {
        lemma_earliest(heard.frames);
        let frame = heard.frames[earliest(heard.frames)];
        assert(heard.frames.contains(frame));
        lemma_push_contains(heard.fired, frame.generation, generation);
    }
}

/// A name as it is written down: cut off behind `MAX_FRAME_NAME` characters, with
/// an ellipsis put in place of the rest.
pub open spec fn clamped(name: Seq<char>) -> Seq<char> {
    if name.len() > MAX_FRAME_NAME {
        name.take(MAX_FRAME_NAME as int).push('\u{2026}')
    } else {
        name
    }
}

/// A name, cut off if it is too long.
pub fn clamp_name(s: String) -> (name: String)
    ensures
        name@ == clamped(s@),
{
    let text = s.as_str();
    if text.unicode_len() <= MAX_FRAME_NAME {
        return s;
    }
    let mut name: String = text.substring_char(0, MAX_FRAME_NAME).to_owned();
    proof {
        reveal_strlit("\u{2026}");
    }
    name.append("\u{2026}");
    assert(name@ =~= clamped(s@));
    name
}

/// What the engine says of one frame of the script's stack.
#[derive(Debug)]
pub struct StackFrame {
    pub function: Option<String>,
    pub script: Option<String>,
    pub line: u64,
    pub column: u64,
}

/// A name, or what stands for a missing one.
pub open spec fn named(name: Option<String>, otherwise: Seq<char>) -> Seq<char> {
    match name {
        Some(n) => if n@.len() > 0 {
            clamped(n@)
        } else {
            clamped(otherwise)
        },
        None => clamped(otherwise),
    }
}

fn name_or(name: Option<String>, otherwise: &str) -> (text: String)
    ensures
        text@ == named(name, otherwise@),
{
    match name {
        Some(n) => if n.as_str().is_empty() {
            clamp_name(otherwise.to_owned())
        } else {
            clamp_name(n)
        },
        None => clamp_name(otherwise.to_owned()),
    }
}

/// One frame as text: function, script, line and column.
pub open spec fn frame_text(frame: StackFrame) -> Seq<char> {
    named(frame.function, "<anonymous>"@) + " ("@ + named(frame.script, "<unknown>"@) + ":"@
        + numeral(frame.line as nat, 10) + ":"@ + numeral(frame.column as nat, 10) + ")"@
}

fn frame_line(frame: StackFrame) -> (text: String)
    ensures
        text@ == frame_text(frame),
{
    let ghost whole = frame;
    let mut text = name_or(frame.function, "<anonymous>");
    text.append(" (");
    let script = name_or(frame.script, "<unknown>");
    text.append(script.as_str());
    text.append(":");
    write_number(&mut text, frame.line, 10);
    text.append(":");
    write_number(&mut text, frame.column, 10);
    text.append(")");
    assert(text@ =~= frame_text(whole));
    text
}

/// The frames as text, top frame first. One that could not be read is left out.
pub open spec fn frame_texts(frames: Seq<Option<StackFrame>>) -> Seq<Seq<char>>
    decreases frames.len(),
{
    if frames.len() == 0 {
        seq![]
    } else {
        match frames.last() {
            Some(frame) => frame_texts(frames.drop_last()).push(frame_text(frame)),
            None => frame_texts(frames.drop_last()),
        }
    }
}

/// What some strings say.
pub open spec fn texts(lines: Seq<String>) -> Seq<Seq<char>> {
    Seq::new(lines.len(), |i: int| lines[i]@)
}

/// The frames of the script's stack as text, top frame first.
pub fn capture_js_backtrace(frames: Vec<Option<StackFrame>>) -> (lines: Vec<String>)
    ensures
        texts(lines@) == frame_texts(frames@),
{
    let ghost all = frames@;
    let mut frames = frames;
    let mut reversed: Vec<Option<StackFrame>> = Vec::new();
    let mut lines: Vec<String> = Vec::new();
    while frames.len() > 0
        invariant
            frames@.len() + reversed@.len() == all.len(),
            frames@ == all.take(frames@.len() as int),
            forall|i: int|
                0 <= i < reversed@.len() ==> #[trigger] reversed@[i] == all[all.len() - 1 - i],
        decreases frames@.len(),
    {
        match frames.pop() {
            Some(frame) => {
                reversed.push(frame);
            },
            None => {},
        }
    }
    assert(texts(lines@) =~= frame_texts(all.take(0)));
    while reversed.len() > 0
        invariant
            reversed@.len() <= all.len(),
            forall|i: int|
                0 <= i < reversed@.len() ==> #[trigger] reversed@[i] == all[all.len() - 1 - i],
            texts(lines@) == frame_texts(all.take(all.len() - reversed@.len())),
        decreases reversed@.len(),
    {
        let ghost done = all.len() - reversed@.len();
        let ghost before = lines@;
        assert(all.take(done + 1).drop_last() =~= all.take(done));
        assert(reversed@.last() == all[done]);
        match reversed.pop() {
            Some(Some(frame)) => {
                let line = frame_line(frame);
                lines.push(line);
                assert(texts(lines@) =~= texts(before).push(frame_text(frame)));
            },
            _ => {},
        }
    }
    assert(all.take(all.len() as int) =~= all);
    lines
}

/// An armed deadline lies exactly its timeout ahead, is a new one, and is the
/// innermost; nothing else changes by it.
pub proof fn law_deadline_lies_its_timeout_ahead(watch: Watch, timeout_ms: u64, now: u128)
    requires
        watch.generation < u64::MAX,
        now + timeout_ms * 1_000_000 <= u128::MAX,
    ensures
        ({
            let after = armed(watch, timeout_ms, now);
            &&& after.frames.len() == watch.frames.len() + 1
            &&& after.frames.drop_last() == watch.frames
            &&& after.frames.last().deadline == now + timeout_ms * 1_000_000
            &&& after.frames.last().generation == watch.generation + 1
            &&& after.generation == watch.generation + 1
            &&& after.fired == watch.fired
            &&& after.shutdown == watch.shutdown
            &&& after.iso_ptr == watch.iso_ptr
        }),
{
    assert(armed(watch, timeout_ms, now).frames.drop_last() =~= watch.frames);
}

/// Disarming takes one deadline off, whether it has passed or not, and leaves every
/// other as it is.
pub proof fn law_disarming_takes_one_off(watch: Watch, generation: u64, frame: WatchdogFrame, g: u64)
    ensures
        ({
            let after = disarmed(watch, generation);
            &&& after.frames.contains(frame) <==> watch.frames.contains(frame) && frame.generation
                != generation
            &&& after.fired.contains(g) <==> watch.fired.contains(g) && g != generation
            &&& after.generation == watch.generation
            &&& after.shutdown == watch.shutdown
            &&& after.iso_ptr == watch.iso_ptr
        }),
{
    lemma_without_keeps(watch.frames, generation);
    lemma_except_keeps(watch.fired, generation);
}

/// The watchdog thread sleeps as long as nothing is armed, and up to the earliest
/// deadline otherwise. Once that has passed, the script is stopped: by an interrupt
/// of the isolate, or, if it is not known where that is, outright. The deadline is
/// enforced once, and every other one stays armed.
pub proof fn law_passed_deadline_stops_the_script(watch: Watch, now: u128, i: int, frame: WatchdogFrame)
    requires
        watch.wf(),
        0 <= i < watch.frames.len(),
        forall|j: int|
            0 <= j < watch.frames.len() && j != i ==> watch.frames[i].deadline < (
            #[trigger] watch.frames[j]).deadline,
    ensures
        ({
            let (wake, after) = woken(watch, now);
            let due = watch.frames[i];
            &&& watch.shutdown ==> wake is Stop && after == watch
            &&& !watch.shutdown && now < due.deadline ==> wake == Wake::SleepFor(
                (due.deadline - now) as u128,
            ) && after == watch
            &&& !watch.shutdown && now >= due.deadline ==> {
                &&& watch.iso_ptr != 0 ==> wake == Wake::Interrupt(watch.iso_ptr)
                &&& watch.iso_ptr == 0 ==> wake is Terminate
                &&& after.fired == watch.fired.push(due.generation)
                &&& after.frames.contains(frame) <==> watch.frames.contains(frame) && frame != due
                &&& after.generation == watch.generation
            }
        }),
{
    lemma_earliest(watch.frames);
    let at = earliest(watch.frames);
    assert(at == i) by {
        if at != i {
            assert(watch.frames[i].deadline < watch.frames[at].deadline);
            assert(watch.frames[at].deadline <= watch.frames[i].deadline);
        }
    }
    let due = watch.frames[i];
    lemma_without_keeps(watch.frames, due.generation);
    if watch.frames.contains(frame) && frame != due {
        let j = choose|j: int| 0 <= j < watch.frames.len() && watch.frames[j] == frame;
        assert(j != i);
        if j < i {
            assert(watch.frames[j].generation < watch.frames[i].generation);
        } else {
            assert(watch.frames[i].generation < watch.frames[j].generation);
        }
    }
}

/// With nothing armed, the watchdog thread sleeps until something changes, or ends
/// if it is to.
pub proof fn law_idle_watchdog_sleeps(watch: Watch, now: u128)
    requires
        watch.frames.len() == 0,
    ensures
        woken(watch, now) == (
            if watch.shutdown {
                Wake::Stop
            } else {
                Wake::Sleep
            },
            watch,
        ),
{
}

/// A name of up to two hundred and fifty-six characters is written down whole; of a
/// longer one, that many characters, and an ellipsis.
pub proof fn law_names_are_cut_off(name: Seq<char>)
    ensures
        name.len() <= 256 ==> clamped(name) == name,
        name.len() > 256 ==> clamped(name).len() == 257 && clamped(name).take(256) == name.take(256)
            && clamped(name).last() == '\u{2026}',
{
    if name.len() > 256 {
        assert(clamped(name).take(256) =~= name.take(256));
    }
}

/// Every frame that could be read is written down, in order, and nothing else is:
/// its function, then its script, line and column.
pub proof fn law_frames_are_written_in_order(
    frames: Seq<Option<StackFrame>>,
    function: String,
    script: String,
    line: u64,
    column: u64,
)
    requires
        0 < function@.len() <= 256,
        0 < script@.len() <= 256,
    ensures
        frame_texts(frames.push(None)) == frame_texts(frames),
        frame_texts(seq![]) == Seq::<Seq<char>>::empty(),
        frame_texts(
            frames.push(
                Some(
                    StackFrame { function: Some(function), script: Some(script), line, column },
                ),
            ),
        ) == frame_texts(frames).push(
            function@ + " ("@ + script@ + ":"@ + numeral(line as nat, 10) + ":"@ + numeral(
                column as nat,
                10,
            ) + ")"@,
        ),
{
    let frame = StackFrame { function: Some(function), script: Some(script), line, column };
    assert(frames.push(None).drop_last() =~= frames);
    assert(frames.push(Some(frame)).drop_last() =~= frames);
}

/// An operation with a timeout is stopped by it just if it takes that long: the
/// watchdog looks at the clock while the operation runs, and the operation hears at
/// its end whether its time was up. One without a timeout is never stopped by the
/// watchdog.
pub proof fn law_timeout_is_enforced(watch: Watch, timeout_ms: u64, start: u128, now: u128)
    requires
        watch.wf(),
        watch.frames.len() == 0,
        !watch.shutdown,
        watch.generation < u64::MAX,
        start + timeout_ms * 1_000_000 <= u128::MAX,
    ensures
        ({
            let (generation, during) = arming(watch, timeout_ms, start);
            let (wake, later) = woken(during, now);
            let stopped = wake is Interrupt || wake is Terminate;
            &&& timeout_ms == 0 ==> generation is None && !stopped
            &&& timeout_ms > 0 ==> generation is Some && (stopped <==> now >= start + timeout_ms
                * 1_000_000)
            &&& disarming(later, generation).0 == stopped
            &&& disarming(later, generation).1.frames.len() == 0
        }),
{
    let (generation, during) = arming(watch, timeout_ms, start);
    if timeout_ms > 0 {
        let frame = during.frames[0];
        assert(during.frames.len() == 1);
        assert(earliest(during.frames) == 0);
        assert(!watch.fired.contains(frame.generation));
        let (wake, later) = woken(during, now);
        reveal_with_fuel(without, 3);
        assert(without(during.frames, frame.generation).len() == 0);
        if now >= frame.deadline {
            lemma_push_contains(during.fired, frame.generation, frame.generation);
            assert(later.frames.len() == 0);
        }
    } else {
        assert(woken(during, now).1.frames.len() == 0);
    }
}

/// A function or a script without a name, or with an empty one, is written as what
/// stands for it; one with a name, by that name.
pub proof fn law_missing_names_are_stood_for(name: Option<String>, otherwise: Seq<char>)
    requires
        otherwise.len() <= MAX_FRAME_NAME,
    ensures
        name is None ==> named(name, otherwise) == otherwise,
        name matches Some(text) ==> text@.len() == 0 ==> named(name, otherwise) == otherwise,
        name matches Some(text) ==> 0 < text@.len() <= MAX_FRAME_NAME ==> named(name, otherwise)
            == text@,
        name matches Some(text) ==> text@.len() > MAX_FRAME_NAME ==> named(name, otherwise)
            == clamped(text@),
        otherwise.len() > 0 ==> named(name, otherwise).len() > 0,
{
}

/// Of deadlines that pass at the same time, the one armed first is enforced first.
pub proof fn law_first_of_equal_deadlines_fires(frames: Seq<WatchdogFrame>, i: int)
    requires
        0 <= i < frames.len(),
    ensures
        frames[earliest(frames)].deadline <= frames[i].deadline,
        i < earliest(frames) ==> frames[earliest(frames)].deadline < frames[i].deadline,
    decreases frames.len(),
{
    lemma_earliest(frames);
    if frames.len() > 1 {
        let shorter = frames.drop_last();
        lemma_earliest(shorter);
        if i < shorter.len() {
            law_first_of_equal_deadlines_fires(shorter, i);
        }
    }
}

} // verus!
