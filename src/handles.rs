use vstd::prelude::*;
use vstd::arithmetic::div_mod::{lemma_fundamental_div_mod, lemma_fundamental_div_mod_converse};
use crate::counter::{CounterState, PingPong};
use crate::error::PingPongError;

verus! {

/// The handle that never names a counter.
pub const NULL_HANDLE: u64 = 0;

/// How many slots the table may hold: a slot index plus one must fit in the
/// low 32 bits of a handle.
pub const MAX_SLOTS: usize = 0xFFFF_FFFF;

/// A handle packs a slot's generation into its high 32 bits and the slot
/// index plus one into its low 32 bits, so that no handle is zero.
pub open spec fn handle_of(index: int, generation: int) -> int {
    generation * 0x1_0000_0000 + index + 1
}

/// The slot index that a handle names; `-1` for a handle with zero low bits.
pub open spec fn slot_of(h: u64) -> int {
    h as int % 0x1_0000_0000 - 1
}

/// The generation that a handle names.
pub open spec fn generation_of(h: u64) -> int {
    h as int / 0x1_0000_0000
}

proof fn lemma_handle_of_decodes(index: int, generation: int)
    requires
        0 <= index < MAX_SLOTS,
        0 <= generation <= u32::MAX,
    ensures
        0 < handle_of(index, generation) <= u64::MAX,
        slot_of(handle_of(index, generation) as u64) == index,
        generation_of(handle_of(index, generation) as u64) == generation,
{
    assert(generation * 0x1_0000_0000 <= 0xFFFF_FFFF * 0x1_0000_0000) by (nonlinear_arith)
        requires
            0 <= generation <= 0xFFFF_FFFF,
    ;
    assert(0 <= generation * 0x1_0000_0000) by (nonlinear_arith)
        requires
            0 <= generation,
    ;
    lemma_fundamental_div_mod_converse(
        handle_of(index, generation),
        0x1_0000_0000,
        generation,
        index + 1,
    );
}

proof fn lemma_handle_splits(h: u64)
    ensures
        h == handle_of(slot_of(h), generation_of(h)),
        0 <= generation_of(h) <= u32::MAX,
        -1 <= slot_of(h) < MAX_SLOTS,
{
    lemma_fundamental_div_mod(h as int, 0x1_0000_0000);
}

/// Two handles that name the same slot and generation are the same handle.
proof fn lemma_handle_injective(h1: u64, h2: u64)
    requires
        slot_of(h1) == slot_of(h2),
        generation_of(h1) == generation_of(h2),
    ensures
        h1 == h2,
{
    lemma_handle_splits(h1);
    lemma_handle_splits(h2);
}

struct Slot<C> {
    generation: u32,
    entry: Option<PingPong<C>>,
}

/// A table of counters owned on behalf of foreign callers, each reached
/// through an opaque 64-bit handle.
///
/// Releasing a counter bumps its slot's generation, so the released handle
/// stays invalid when the slot is reused; a slot whose generation is spent is
/// retired for good. No handle is ever handed out twice.
pub struct Handles<C> {
    slots: Vec<Slot<C>>,
    issued: Ghost<Set<u64>>,
}

impl<C> View for Handles<C> {
    type V = Map<u64, CounterState<C>>;

    /// The live counters, by handle.
    closed spec fn view(&self) -> Map<u64, CounterState<C>> {
        Map::new(|h: u64| self.is_live(h), |h: u64| self.slots@[slot_of(h)].entry->0@)
    }
}

impl<C> Handles<C> {
    closed spec fn is_live(&self, h: u64) -> bool {
        let i = slot_of(h);
        &&& 0 <= i < self.slots@.len()
        &&& self.slots@[i].entry is Some
        &&& self.slots@[i].generation == generation_of(h)
    }

    closed spec fn reusable(&self, i: int) -> bool {
        self.slots@[i].entry is None && self.slots@[i].generation < u32::MAX
    }

    /// Every handle this table has ever handed out, live or released.
    pub closed spec fn issued(&self) -> Set<u64> {
        self.issued@
    }

    /// No counter can be added: every slot is live or retired, and no new
    /// slot fits.
    pub closed spec fn is_full(&self) -> bool {
        &&& self.slots@.len() == MAX_SLOTS
        &&& forall|i: int| 0 <= i < self.slots@.len() ==> !self.reusable(i)
    }

    /// The table's invariant: live slots hold a usable generation and a
    /// nonzero trigger, and every issued handle names a slot whose
    /// generation has not gone back below it.
    pub closed spec fn wf(&self) -> bool {
        &&& self.slots@.len() <= MAX_SLOTS
        &&& forall|i: int|
            #![trigger self.slots@[i]]
            0 <= i < self.slots@.len() && self.slots@[i].entry is Some ==> {
                &&& self.slots@[i].generation < u32::MAX
                &&& self.slots@[i].entry->0@.trigger > 0
                &&& self.issued@.contains(handle_of(i, self.slots@[i].generation as int) as u64)
            }
        &&& forall|h: u64|
            #![trigger self.issued@.contains(h)]
            self.issued@.contains(h) ==> {
                &&& 0 <= slot_of(h) < self.slots@.len()
                &&& generation_of(h) <= self.slots@[slot_of(h)].generation
                &&& generation_of(h) == self.slots@[slot_of(h)].generation
                    ==> self.slots@[slot_of(h)].entry is Some
            }
    }

    /// The null handle never names a counter.
    pub proof fn lemma_null_not_live(&self)
        requires
            self.wf(),
        ensures
            !self@.contains_key(NULL_HANDLE),
    {
    }

    /// Every live handle was issued by this table.
    pub proof fn lemma_live_issued(&self, h: u64)
        requires
            self.wf(),
            self@.contains_key(h),
        ensures
            self.issued().contains(h),
    {
        let i = slot_of(h);
        assert(self.slots@[i].entry is Some);
        lemma_handle_splits(h);
    }

    /// An empty table.
    pub fn new() -> (r: Self)
        ensures
            r.wf(),
            r@ == Map::<u64, CounterState<C>>::empty(),
            r.issued() == Set::<u64>::empty(),
            !r.is_full(),
    {
        let r = Handles { slots: Vec::new(), issued: Ghost(Set::empty()) };
        assert(r@ =~= Map::<u64, CounterState<C>>::empty());
        r
    }

    /// The slot of a live handle.
    fn locate(&self, h: u64) -> (r: Option<usize>)
        requires
            self.wf(),
        ensures
            r is Some <==> self.is_live(h),
            r matches Some(i) ==> i == slot_of(h),
    {
        let low = h % 0x1_0000_0000u64;
        if low == 0 {
            return None;
        }
        let i = (low - 1) as usize;
        let g = h / 0x1_0000_0000u64;
        if i >= self.slots.len() {
            return None;
        }
        if self.slots[i].generation as u64 == g && self.slots[i].entry.is_some() {
            Some(i)
        } else {
            None
        }
    }

    /// The counter behind a live handle.
    pub fn get(&self, h: u64) -> (r: Option<&PingPong<C>>)
        requires
            self.wf(),
        ensures
            r is Some <==> self@.contains_key(h),
            r matches Some(pp) ==> pp@ == self@[h],
    {
        match self.locate(h) {
            Some(i) => self.slots[i].entry.as_ref(),
            None => None,
        }
    }

    /// Registers `callback` on the counter behind `h`, replacing its earlier
    /// one. Fails with `InvalidHandle`, changing nothing, when `h` is not live.
    pub fn set_callback(&mut self, h: u64, callback: C) -> (r: Result<(), PingPongError>)
        requires
            old(self).wf(),
        ensures
            final(self).wf(),
            final(self).issued() == old(self).issued(),
            old(self)@.contains_key(h) ==> r is Ok
                && final(self)@ == old(self)@.insert(h, old(self)@[h].with_callback(callback)),
            !old(self)@.contains_key(h) ==> r == Err::<(), PingPongError>(PingPongError::InvalidHandle)
                && final(self)@ == old(self)@,
    {
        let i = match self.locate(h) {
            Some(i) => i,
            None => return Err(PingPongError::InvalidHandle),
        };
        let mut pp = match self.slots[i].entry.take() {
            Some(pp) => pp,
            None => return Err(PingPongError::InvalidHandle),
        };
        pp.set_callback(callback);
        self.slots[i].entry = Some(pp);
        proof {
            self.lemma_same_slots_but(old(self), i as int, h);
        }
        Ok(())
    }

    /// Advances the counter behind `h` and returns the value owed to its
    /// callback, if this advance dispatches. Fails with `InvalidHandle`,
    /// changing nothing, when `h` is not live.
    pub fn ping(&mut self, h: u64) -> (r: Result<Option<u32>, PingPongError>)
        requires
            old(self).wf(),
        ensures
            final(self).wf(),
            final(self).issued() == old(self).issued(),
            old(self)@.contains_key(h) ==> r == Ok::<Option<u32>, PingPongError>(old(self)@[h].delivered())
                && final(self)@ == old(self)@.insert(h, old(self)@[h].advanced()),
            !old(self)@.contains_key(h) ==> r == Err::<Option<u32>, PingPongError>(PingPongError::InvalidHandle)
                && final(self)@ == old(self)@,
    {
        let i = match self.locate(h) {
            Some(i) => i,
            None => return Err(PingPongError::InvalidHandle),
        };
        let mut pp = match self.slots[i].entry.take() {
            Some(pp) => pp,
            None => return Err(PingPongError::InvalidHandle),
        };
        let d = pp.ping();
        self.slots[i].entry = Some(pp);
        proof {
            self.lemma_same_slots_but(old(self), i as int, h);
        }
        Ok(d)
    }

    /// Removes the counter behind `h` and hands it back, so that whatever it
    /// holds (its callback included) is dropped by the caller. A handle that
    /// is not live, the null handle among them, changes nothing.
    pub fn release(&mut self, h: u64) -> (r: Option<PingPong<C>>)
        requires
            old(self).wf(),
        ensures
            final(self).wf(),
            final(self).issued() == old(self).issued(),
            final(self)@ == old(self)@.remove(h),
            h == NULL_HANDLE ==> r is None && final(self)@ == old(self)@,
            r is Some <==> old(self)@.contains_key(h),
            r matches Some(pp) ==> pp@ == old(self)@[h],
    {
        let i = match self.locate(h) {
            Some(i) => i,
            None => {
                proof {
                    old(self).lemma_null_not_live();
                }
                assert(old(self)@.remove(h) =~= old(self)@);
                return None;
            },
        };
        let pp = self.slots[i].entry.take();
        self.slots[i].generation = self.slots[i].generation + 1;
        proof {
            let ii = i as int;
            assert forall|h2: u64| #[trigger] self.issued@.contains(h2) implies {
                &&& 0 <= slot_of(h2) < self.slots@.len()
                &&& generation_of(h2) <= self.slots@[slot_of(h2)].generation
                &&& generation_of(h2) == self.slots@[slot_of(h2)].generation
                    ==> self.slots@[slot_of(h2)].entry is Some
            } by {
                assert(old(self).issued@.contains(h2));
            }
            assert forall|h2: u64| self.is_live(h2) <==> old(self).is_live(h2) && h2 != h by {
                if old(self).is_live(h2) && slot_of(h2) == ii {
                    lemma_handle_injective(h2, h);
                }
            }
            assert(self@ =~= old(self)@.remove(h));
        }
        pp
    }

    /// `self` differs from `prev` only in the entry of slot `i`, which `h`
    /// names, and that entry is still live with an unchanged trigger.
    proof fn lemma_same_slots_but(&self, prev: &Self, i: int, h: u64)
        requires
            prev.wf(),
            prev.is_live(h),
            i == slot_of(h),
            self.issued@ == prev.issued@,
            self.slots@.len() == prev.slots@.len(),
            self.slots@[i].generation == prev.slots@[i].generation,
            self.slots@[i].entry is Some,
            self.slots@[i].entry->0@.trigger == prev.slots@[i].entry->0@.trigger,
            forall|j: int| 0 <= j < self.slots@.len() && j != i ==> self.slots@[j] == prev.slots@[j],
        ensures
            self.wf(),
            self@ == prev@.insert(h, self.slots@[i].entry->0@),
    {
        assert forall|h2: u64| self.is_live(h2) <==> prev.is_live(h2) by {}
        assert forall|h2: u64| self.is_live(h2) && h2 != h implies slot_of(h2) != i by {
            if slot_of(h2) == i {
                lemma_handle_injective(h2, h);
            }
        }
        assert forall|h2: u64| #[trigger] self.issued@.contains(h2) implies {
            &&& 0 <= slot_of(h2) < self.slots@.len()
            &&& generation_of(h2) <= self.slots@[slot_of(h2)].generation
            &&& generation_of(h2) == self.slots@[slot_of(h2)].generation
                ==> self.slots@[slot_of(h2)].entry is Some
        } by {
            assert(prev.issued@.contains(h2));
        }
        assert forall|j: int|
            #![trigger self.slots@[j]]
            0 <= j < self.slots@.len() && self.slots@[j].entry is Some implies {
                &&& self.slots@[j].generation < u32::MAX
                &&& self.slots@[j].entry->0@.trigger > 0
                &&& self.issued@.contains(handle_of(j, self.slots@[j].generation as int) as u64)
            } by {
            assert(prev.slots@[j].entry is Some);
        }
        assert(self@ =~= prev@.insert(h, self.slots@[i].entry->0@));
    }

    /// Allocates a counter starting at `start` that fires on multiples of
    /// `trigger`, and returns its handle: a handle never issued before, and
    /// never null. A zero trigger is refused with `DivisionPrecondition`; a
    /// full table with `HandlesExhausted`. A refusal changes nothing.
    ///
    /// A released slot is reused before the table grows.
    pub fn create(&mut self, start: u32, trigger: u32) -> (r: Result<u64, PingPongError>)
        requires
            old(self).wf(),
        ensures
            final(self).wf(),
            trigger == 0 ==> r == Err::<u64, PingPongError>(PingPongError::DivisionPrecondition),
            trigger > 0 && old(self).is_full() ==> r == Err::<u64, PingPongError>(
                PingPongError::HandlesExhausted,
            ),
            trigger > 0 && !old(self).is_full() ==> r is Ok,
            r is Err ==> final(self)@ == old(self)@ && final(self).issued() == old(self).issued(),
            r matches Ok(h) ==> {
                &&& h != NULL_HANDLE
                &&& !old(self).issued().contains(h)
                &&& final(self).issued() == old(self).issued().insert(h)
                &&& final(self)@ == old(self)@.insert(h, CounterState::<C>::initial(start, trigger))
            },
    {
        if trigger == 0 {
            return Err(PingPongError::DivisionPrecondition);
        }
        let mut i: usize = 0;
        while i < self.slots.len()
            invariant
                self.slots@ == old(self).slots@,
                self.issued@ == old(self).issued@,
                self.wf(),
                trigger > 0,
                0 <= i <= self.slots@.len(),
                forall|j: int| 0 <= j < i ==> !old(self).reusable(j),
            decreases self.slots@.len() - i,
        {
            if self.slots[i].entry.is_none() && self.slots[i].generation < u32::MAX {
                let g = self.slots[i].generation;
                proof {
                    lemma_handle_of_decodes(i as int, g as int);
                }
                let h = (g as u64) * 0x1_0000_0000u64 + (i as u64) + 1;
                proof {
                    assert(old(self).reusable(i as int));
                    self.lemma_fresh(i as int, h);
                }
                let pp = PingPong::new(start, trigger);
                self.slots[i].entry = Some(pp);
                assert(self.slots@[i as int].entry == Some(pp));
                self.issued = Ghost(self.issued@.insert(h));
                proof {
                    self.lemma_filled(old(self), i as int, h);
                }
                return Ok(h);
            }
            i = i + 1;
        }
        if self.slots.len() >= MAX_SLOTS {
            return Err(PingPongError::HandlesExhausted);
        }
        let i = self.slots.len();
        proof {
            lemma_handle_of_decodes(i as int, 0);
        }
        let h = (i as u64) + 1;
        proof {
            self.lemma_fresh(i as int, h);
        }
        self.slots.push(Slot { generation: 0, entry: Some(PingPong::new(start, trigger)) });
        self.issued = Ghost(self.issued@.insert(h));
        proof {
            self.lemma_filled(old(self), i as int, h);
        }
        Ok(h)
    }

    /// The handle of slot `i` at its current generation (generation zero for
    /// the slot just past the end) was never issued, when that slot is free.
    proof fn lemma_fresh(&self, i: int, h: u64)
        requires
            self.wf(),
            0 <= i <= self.slots@.len(),
            i < self.slots@.len() ==> self.reusable(i),
            slot_of(h) == i,
            generation_of(h) == (if i < self.slots@.len() {
                self.slots@[i].generation as int
            } else {
                0
            }),
        ensures
            !self.issued@.contains(h),
    {
    }

    /// Slot `i` of `self` now holds a fresh counter under `h`, and `h` was
    /// added to the issued handles; everything else is as in `prev`.
    proof fn lemma_filled(&self, prev: &Self, i: int, h: u64)
        requires
            prev.wf(),
            !prev.issued@.contains(h),
            slot_of(h) == i,
            0 <= i <= prev.slots@.len(),
            i < prev.slots@.len() ==> prev.reusable(i) && self.slots@.len() == prev.slots@.len(),
            i == prev.slots@.len() ==> self.slots@.len() == prev.slots@.len() + 1
                && self.slots@.len() <= MAX_SLOTS && self.slots@[i].generation == 0,
            i < prev.slots@.len() ==> self.slots@[i].generation == prev.slots@[i].generation,
            generation_of(h) == self.slots@[i].generation,
            self.slots@[i].entry is Some,
            self.slots@[i].entry->0@.trigger > 0,
            self.issued@ == prev.issued@.insert(h),
            forall|j: int| 0 <= j < prev.slots@.len() && j != i ==> self.slots@[j] == prev.slots@[j],
        ensures
            self.wf(),
            self@ == prev@.insert(h, self.slots@[i].entry->0@),
    {
        lemma_handle_splits(h);
        assert forall|h2: u64| self.is_live(h2) && h2 != h implies slot_of(h2) != i by {
            if slot_of(h2) == i {
                lemma_handle_injective(h2, h);
            }
        }
        assert forall|h2: u64| #[trigger] self.issued@.contains(h2) implies {
            &&& 0 <= slot_of(h2) < self.slots@.len()
            &&& generation_of(h2) <= self.slots@[slot_of(h2)].generation
            &&& generation_of(h2) == self.slots@[slot_of(h2)].generation
                ==> self.slots@[slot_of(h2)].entry is Some
        } by {
            if h2 != h {
                assert(prev.issued@.contains(h2));
            }
        }
        assert forall|j: int|
            #![trigger self.slots@[j]]
            0 <= j < self.slots@.len() && self.slots@[j].entry is Some implies {
                &&& self.slots@[j].generation < u32::MAX
                &&& self.slots@[j].entry->0@.trigger > 0
                &&& self.issued@.contains(handle_of(j, self.slots@[j].generation as int) as u64)
            } by {
            if j != i {
                assert(prev.slots@[j].entry is Some);
            }
        }
        assert(self@ =~= prev@.insert(h, self.slots@[i].entry->0@));
    }
}

} // verus!
