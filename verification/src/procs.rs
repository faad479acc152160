//! The host functions of an isolate: Ruby procs that scripts can call, by number.

use vstd::prelude::*;

verus! {

/// One host function: the realm that it was attached in, and the proc; none once
/// it has been released.
#[derive(Debug)]
pub struct ProcSlot<P> {
    pub context_id: i32,
    pub proc: Option<P>,
}

/// The host functions of an isolate. A number whose function was released is
/// given out again: the realm that held the script's side of it is gone by then.
#[derive(Debug)]
pub struct ProcTable<P> {
    slots: Vec<ProcSlot<P>>,
    free: Vec<usize>,
}

/// The slots once the functions of a realm have been released.
pub open spec fn released<P>(slots: Seq<ProcSlot<P>>, context_id: i32) -> Seq<ProcSlot<P>> {
    Seq::new(
        slots.len(),
        |i: int|
            if slots[i].context_id == context_id {
                ProcSlot { context_id, proc: None }
            } else {
                slots[i]
            },
    )
}

/// The numbers below `n` that the release of a realm sets free.
pub open spec fn set_free<P>(slots: Seq<ProcSlot<P>>, context_id: i32, n: nat) -> Seq<usize>
    decreases n,
{
    if n == 0 {
        seq![]
    } else {
        let before = set_free(slots, context_id, (n - 1) as nat);
        if slots[n - 1].context_id == context_id && slots[n - 1].proc is Some {
            before.push((n - 1) as usize)
        } else {
            before
        }
    }
}

/// The slots and the numbers to be given out again once a function has been taken
/// in, and its number: the one set free last, or the next new one.
pub open spec fn attached<P>(
    slots: Seq<ProcSlot<P>>,
    free: Seq<usize>,
    context_id: i32,
    proc: P,
) -> (Seq<ProcSlot<P>>, Seq<usize>, usize) {
    let slot = ProcSlot { context_id, proc: Some(proc) };
    if free.len() > 0 {
        (slots.update(free.last() as int, slot), free.drop_last(), free.last())
    } else {
        (slots.push(slot), free, slots.len() as usize)
    }
}

/// The same of functions taken in one after the other.
pub open spec fn attached_all<P>(
    slots: Seq<ProcSlot<P>>,
    free: Seq<usize>,
    context_id: i32,
    entries: Seq<(String, P)>,
) -> (Seq<ProcSlot<P>>, Seq<usize>, Seq<(String, usize)>)
    decreases entries.len(),
{
    if entries.len() == 0 {
        (slots, free, seq![])
    } else {
        let (s, f, ids) = attached_all(slots, free, context_id, entries.drop_last());
        let (name, proc) = entries.last();
        let (s, f, id) = attached(s, f, context_id, proc);
        (s, f, ids.push((name, id)))
    }
}

impl<P> ProcTable<P> {
    pub closed spec fn slots(self) -> Seq<ProcSlot<P>> {
        self.slots@
    }

    /// The numbers to be given out again, the next one last.
    pub closed spec fn free(self) -> Seq<usize> {
        self.free@
    }

    /// The number has a function.
    pub open spec fn is_live(self, id: int) -> bool {
        0 <= id < self.slots().len() && self.slots()[id].proc is Some
    }

    /// The numbers to be given out again are those without a function, each once.
    pub open spec fn wf(self) -> bool {
        &&& self.free().no_duplicates()
        &&& forall|k: int|
            0 <= k < self.free().len() ==> (#[trigger] self.free()[k]) < self.slots().len()
                && self.slots()[self.free()[k] as int].proc is None
        &&& forall|i: int|
            0 <= i < self.slots().len() && (#[trigger] self.slots()[i]).proc is None
                ==> self.free().contains(i as usize)
    }

    /// No functions.
    pub fn new() -> (table: Self)
        ensures
            table.wf(),
            table.slots() == Seq::<ProcSlot<P>>::empty(),
            table.free() == Seq::<usize>::empty(),
    {
        ProcTable { slots: Vec::new(), free: Vec::new() }
    }

    /// Takes a function in and returns its number: the one set free last, or the
    /// next new one. It was nobody's until then.
    pub fn attach(&mut self, context_id: i32, proc: P) -> (id: usize)
        requires
            old(self).wf(),
        ensures
            final(self).wf(),
            !old(self).is_live(id as int),
            (final(self).slots(), final(self).free(), id) == attached(
                old(self).slots(),
                old(self).free(),
                context_id,
                proc,
            ),
            final(self).slots().len() <= usize::MAX,
            id < final(self).slots().len(),
            final(self).slots()[id as int] == (ProcSlot { context_id, proc: Some(proc) }),
            forall|k: int|
                0 <= k < old(self).slots().len() && k != id ==> #[trigger] final(self).slots()[k]
                    == old(self).slots()[k],
    {
        let slot = ProcSlot { context_id, proc: Some(proc) };
        match self.free.pop() {
            Some(id) => {
                assert(old(self).free().last() == id);
                self.slots.set(id, slot);
                proof {
                    assert forall|i: int|
                        0 <= i < self.slots().len() && (
                        #[trigger] self.slots()[i]).proc is None implies self.free().contains(
                        i as usize,
                    ) by {
                        assert(old(self).slots()[i].proc is None);
                        let k = choose|k: int|
                            0 <= k < old(self).free().len() && old(self).free()[k] == i as usize;
                        assert(k < old(self).free().len() - 1);
                        assert(self.free()[k] == i as usize);
                    }
                }
                id
            },
            None => {
                self.slots.push(slot);
                self.slots.len() - 1
            },
        }
    }

    /// Releases every function that was attached in a realm.
    pub fn release(&mut self, context_id: i32)
        requires
            old(self).wf(),
        ensures
            final(self).wf(),
            final(self).slots() == released(old(self).slots(), context_id),
            final(self).free() == old(self).free() + set_free(
                old(self).slots(),
                context_id,
                old(self).slots().len(),
            ),
    {
        let ghost slots = self.slots();
        let mut id: usize = 0;
        assert(self.free() =~= old(self).free() + set_free(slots, context_id, 0));
        while id < self.slots.len()
            invariant
                slots == old(self).slots(),
                id <= slots.len(),
                self.slots().len() == slots.len(),
                forall|i: int|
                    0 <= i < id ==> #[trigger] self.slots()[i] == released(slots, context_id)[i],
                forall|i: int| id <= i < slots.len() ==> #[trigger] self.slots()[i] == slots[i],
                self.free() == old(self).free() + set_free(slots, context_id, id as nat),
                self.wf(),
            decreases slots.len() - id,
        {
            let ghost before = self.free();
            let here = self.slots[id].context_id == context_id;
            if here && self.slots[id].proc.is_some() {
                assert(!before.contains(id)) by {
                    if before.contains(id) {
                        let k = choose|k: int| 0 <= k < before.len() && before[k] == id;
                        assert(self.slots()[before[k] as int].proc is None);
                    }
                }
                let ghost unfreed = self.slots();
                self.slots.set(id, ProcSlot { context_id, proc: None });
                self.free.push(id);
                proof {
                    assert(self.free() =~= old(self).free() + set_free(
                        slots,
                        context_id,
                        (id + 1) as nat,
                    ));
                    assert forall|i: int|
                        0 <= i < self.slots().len() && (
                        #[trigger] self.slots()[i]).proc is None implies self.free().contains(
                        i as usize,
                    ) by {
                        if i == id {
                            assert(self.free()[before.len() as int] == id);
                        } else {
                            assert(unfreed[i].proc is None);
                            let k = choose|k: int|
                                0 <= k < before.len() && before[k] == i as usize;
                            assert(self.free()[k] == i as usize);
                        }
                    }
                }
            }
            id = id + 1;
        }
        assert(self.slots() =~= released(slots, context_id));
    }

    /// The function with this number, if there is one.
    pub fn lookup(&self, id: usize) -> (proc: Option<&P>)
        ensures
            match proc {
                Some(p) => self.is_live(id as int) && self.slots()[id as int].proc == Some(*p),
                None => !self.is_live(id as int),
            },
    {
        if id < self.slots.len() {
            self.slots[id].proc.as_ref()
        } else {
            None
        }
    }

    /// Takes functions in, one after the other, and returns each one's name with its
    /// number, in order. The numbers are all different, and no other function loses
    /// its own.
    pub fn attach_many(&mut self, context_id: i32, entries: Vec<(String, P)>) -> (ids: Vec<
        (String, usize),
    >)
        requires
            old(self).wf(),
        ensures
            final(self).wf(),
            (final(self).slots(), final(self).free(), ids@) == attached_all(
                old(self).slots(),
                old(self).free(),
                context_id,
                entries@,
            ),
            ids@.len() == entries@.len(),
            forall|i: int, j: int| 0 <= i < j < ids@.len() ==> ids@[i].1 != ids@[j].1,
            forall|i: int|
                0 <= i < ids@.len() ==> (#[trigger] ids@[i]).0 == entries@[i].0 && ids@[i].1
                    < final(self).slots().len() && final(self).slots()[ids@[i].1 as int]
                    == (ProcSlot { context_id, proc: Some(entries@[i].1) }),
            forall|k: int|
                #![trigger final(self).slots()[k]]
                old(self).is_live(k) ==> final(self).is_live(k) && final(self).slots()[k] == old(
                    self
                ).slots()[k],
    {
        let ghost all = entries@;
        let mut ids: Vec<(String, usize)> = Vec::new();
        assert(all.take(0) =~= seq![]);
        for entry in it: entries
            invariant
                self.wf(),
                it.seq() == all,
                ids@.len() == it.index(),
                (self.slots(), self.free(), ids@) == attached_all(
                    old(self).slots(),
                    old(self).free(),
                    context_id,
                    all.take(ids@.len() as int),
                ),
                forall|i: int, j: int| 0 <= i < j < ids@.len() ==> ids@[i].1 != ids@[j].1,
                forall|i: int|
                    0 <= i < ids@.len() ==> (#[trigger] ids@[i]).0 == all[i].0 && ids@[i].1
                        < self.slots().len() && self.slots()[ids@[i].1 as int] == (ProcSlot {
                        context_id,
                        proc: Some(all[i].1),
                    }),
                forall|k: int|
                    old(self).is_live(k) ==> self.is_live(k) && (#[trigger] self.slots()[k])
                        == old(self).slots()[k],
        {
            let ghost before = *self;
            let (name, proc) = entry;
            let id: usize = self.attach(context_id, proc);
            assert forall|k: int| before.is_live(k) implies self.is_live(k) && (
            #[trigger] self.slots()[k]) == before.slots()[k] by {
                assert(k != id);
            }
            assert forall|k: int| old(self).is_live(k) implies self.is_live(k) && (
            #[trigger] self.slots()[k]) == old(self).slots()[k] by {
                assert(before.slots()[k] == old(self).slots()[k]);
                assert(before.is_live(k));
            }
            assert forall|i: int| 0 <= i < ids@.len() implies self.slots()[(
            #[trigger] ids@[i]).1 as int] == before.slots()[ids@[i].1 as int] by {
                assert(before.is_live(ids@[i].1 as int));
            }
            let ghost n = ids@.len() as int;
            assert(all.take(n + 1).drop_last() =~= all.take(n));
            assert(all.take(n + 1).last() == all[n]);
            ids.push((name, id));
        }
        assert(all.take(all.len() as int) =~= all);
        ids
    }

    /// Lets go of every function.
    pub fn clear(&mut self)
        ensures
            final(self).wf(),
            final(self).slots() == Seq::<ProcSlot<P>>::empty(),
            final(self).free() == Seq::<usize>::empty(),
    {
        self.slots.clear();
        self.free.clear();
    }
}

/// The release of a realm lets go of that realm's functions, and of no others.
pub proof fn law_release_spares_other_realms<P>(slots: Seq<ProcSlot<P>>, context_id: i32, id: int)
    requires
        0 <= id < slots.len(),
    ensures
        slots[id].context_id == context_id ==> released(slots, context_id)[id].proc is None,
        slots[id].context_id != context_id ==> released(slots, context_id)[id] == slots[id],
        released(released(slots, context_id), context_id) == released(slots, context_id),
{
    assert(released(released(slots, context_id), context_id) =~= released(slots, context_id));
}

/// The numbers that the release of a realm sets free are those of its own functions
/// that are still there, each once and in order.
pub proof fn law_release_frees_its_own_numbers<P>(
    slots: Seq<ProcSlot<P>>,
    context_id: i32,
    n: nat,
    id: usize,
)
    requires
        n <= slots.len() <= usize::MAX,
    ensures
        set_free(slots, context_id, n).contains(id) <==> id < n && slots[id as int].context_id
            == context_id && slots[id as int].proc is Some,
        set_free(slots, context_id, n).len() > 0 ==> set_free(slots, context_id, n).last() < n,
        forall|i: int, j: int|
            0 <= i < j < set_free(slots, context_id, n).len() ==> set_free(slots, context_id, n)[i]
                < set_free(slots, context_id, n)[j],
    decreases n,
{
    if n > 0 {
        let m = (n - 1) as nat;
        law_release_frees_its_own_numbers(slots, context_id, m, id);
        let before = set_free(slots, context_id, m);
        let all = set_free(slots, context_id, n);
        if slots[n - 1].context_id == context_id && slots[n - 1].proc is Some {
            assert(all == before.push(m as usize));
            if before.contains(id) {
                let k = choose|k: int| 0 <= k < before.len() && before[k] == id;
                assert(all[k] == id);
            }
            assert(all[before.len() as int] == m as usize);
            if all.contains(id) && id != m {
                let k = choose|k: int| 0 <= k < all.len() && all[k] == id;
                assert(before[k] == id);
            }
        }
    }
}

/// A function that is taken in is found under its number, with its realm; the number
/// is the one set free last, or if none is free the next new one, and every other
/// number keeps what it has.
pub proof fn law_attached_function_has_its_number<P>(
    slots: Seq<ProcSlot<P>>,
    free: Seq<usize>,
    context_id: i32,
    proc: P,
    other: int,
)
    requires
        free.len() > 0 ==> free.last() < slots.len(),
        slots.len() < usize::MAX,
    ensures
        ({
            let (after, left, id) = attached(slots, free, context_id, proc);
            &&& id < after.len()
            &&& after[id as int].context_id == context_id
            &&& after[id as int].proc == Some(proc)
            &&& 0 <= other < slots.len() && other != id ==> after[other] == slots[other]
            &&& free.len() > 0 ==> id == free.last() && left == free.drop_last() && after.len()
                == slots.len()
            &&& free.len() == 0 ==> id == slots.len() && left == free && after.len() == slots.len()
                + 1
        }),
{
}

/// Functions that are taken in together are taken in as if one after the other, in
/// order, and each name comes back with its own function's number.
pub proof fn law_functions_are_taken_in_in_turn<P>(
    slots: Seq<ProcSlot<P>>,
    free: Seq<usize>,
    context_id: i32,
    entries: Seq<(String, P)>,
    name: String,
    proc: P,
)
    ensures
        attached_all(slots, free, context_id, seq![]) == (slots, free, Seq::<(String, usize)>::empty()),
        ({
            let (before, left, ids) = attached_all(slots, free, context_id, entries);
            let (after, rest, id) = attached(before, left, context_id, proc);
            &&& ids.len() == entries.len()
            &&& forall|i: int| 0 <= i < ids.len() ==> (#[trigger] ids[i]).0 == entries[i].0
            &&& attached_all(slots, free, context_id, entries.push((name, proc))) == (
                after,
                rest,
                ids.push((name, id)),
            )
        }),
    decreases entries.len(),
{
    assert(entries.push((name, proc)).drop_last() =~= entries);
    if entries.len() > 0 {
        law_functions_are_taken_in_in_turn(
            slots,
            free,
            context_id,
            entries.drop_last(),
            entries.last().0,
            entries.last().1,
        );
        assert(entries.drop_last().push(entries.last()) =~= entries);
    }
}

} // verus!
