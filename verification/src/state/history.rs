//! Preallocated per-tick history rings.
//!
//! One ring slot corresponds to one production tick; `None` slots are honest
//! gaps where no fresh observation arrived.
use vstd::prelude::*;

verus! {

/// History capacity: 240 points over 60 seconds.
pub const HISTORY_CAPACITY: usize = 240;

/// Fixed-capacity per-tick history ring.
#[derive(Debug, Clone)]
pub struct Ring<T> {
    slots: Vec<Option<T>>,
    /// Index of the next slot to write.
    head: usize,
    /// Number of valid slots, up to capacity.
    len: usize,
}

impl<T: Copy> View for Ring<T> {
    type V = Seq<Option<T>>;

    /// The window, oldest to newest.
    closed spec fn view(&self) -> Seq<Option<T>> {
        Seq::new(
            self.len as nat,
            |k: int| self.slots@[(self.head + HISTORY_CAPACITY - self.len + k) % (HISTORY_CAPACITY as int)],
        )
    }
}

/// The window after appending one slot: the newest value last, the oldest
/// dropped once the ring is full.
pub open spec fn appended<T>(window: Seq<Option<T>>, value: Option<T>) -> Seq<Option<T>> {
    if window.len() < HISTORY_CAPACITY {
        window.push(value)
    } else {
        window.drop_first().push(value)
    }
}

/// The newest `HISTORY_CAPACITY` slots of a sequence (all of it when shorter).
pub open spec fn latest<T>(s: Seq<T>) -> Seq<T> {
    if s.len() <= HISTORY_CAPACITY {
        s
    } else {
        s.subrange(s.len() - HISTORY_CAPACITY, s.len() as int)
    }
}

/// Appending to a window of at most the capacity keeps exactly the newest
/// `HISTORY_CAPACITY` slots of the window followed by the new slot.
pub proof fn lemma_appended_keeps_latest<T>(window: Seq<Option<T>>, value: Option<T>)
    requires
        window.len() <= HISTORY_CAPACITY,
    ensures
        appended(window, value) == latest(window.push(value)),
        appended(window, value).len() <= HISTORY_CAPACITY,
{
    if window.len() == HISTORY_CAPACITY {
        assert(window.drop_first().push(value) =~= window.push(value).subrange(1, window.len() as int + 1));
    }
}

impl<T: Copy> Ring<T> {
    pub closed spec fn wf(&self) -> bool {
        &&& self.slots@.len() == HISTORY_CAPACITY
        &&& self.head < HISTORY_CAPACITY
        &&& self.len <= HISTORY_CAPACITY
    }

    /// A well-formed ring holds at most `HISTORY_CAPACITY` slots.
    pub proof fn lemma_bounded(&self)
        requires
            self.wf(),
        ensures
            self@.len() <= HISTORY_CAPACITY,
    {
    }

    /// Preallocates the full ring, empty.
    pub fn new() -> (r: Self)
        ensures
            r.wf(),
            r@ == Seq::<Option<T>>::empty(),
    {
        let mut slots: Vec<Option<T>> = Vec::new();
        let mut i: usize = 0;
        while i < HISTORY_CAPACITY
            invariant
                i <= HISTORY_CAPACITY,
                slots@.len() == i,
            decreases HISTORY_CAPACITY - i,
        {
            slots.push(None);
            i = i + 1;
        }
        let r = Ring { slots, head: 0, len: 0 };
        proof {
            assert(r@ =~= Seq::<Option<T>>::empty());
        }
        r
    }

    /// Appends one production-tick slot: a fresh value or an honest gap.
    pub fn push(&mut self, value: Option<T>)
        requires
            old(self).wf(),
        ensures
            final(self).wf(),
            final(self)@ == appended(old(self)@, value),
            final(self)@.len() <= HISTORY_CAPACITY,
    {
        let ghost before = self@;
        let ghost old_slots = self.slots@;
        let ghost old_head = self.head as int;
        let ghost old_len = self.len as int;
        self.slots.set(self.head, value);
        self.head = if self.head + 1 == HISTORY_CAPACITY {
            0
        } else {
            self.head + 1
        };
        if self.len < HISTORY_CAPACITY {
            self.len = self.len + 1;
        }
        proof {
            let cap = HISTORY_CAPACITY as int;
            let expected = appended(before, value);
            assert(self@.len() == expected.len());
            assert forall|k: int| 0 <= k < self@.len() implies self@[k] == expected[k] by {
                let idx = (self.head + cap - self.len + k) % cap;
                if old_len < cap {
                    let old_idx = (old_head + cap - old_len + k) % cap;
                    if k < old_len {
                        assert(idx == old_idx);
                        assert(old_idx != old_head);
                        assert(expected[k] == before[k]);
                    } else {
                        assert(idx == old_head);
                    }
                } else {
                    let old_idx = (old_head + cap - old_len + k + 1) % cap;
                    if k < old_len - 1 {
                        assert(idx == old_idx);
                        assert(old_idx != old_head);
                        assert(expected[k] == before[k + 1]);
                    } else {
                        assert(idx == old_head);
                    }
                }
            }
            assert(self@ =~= expected);
        }
    }

    /// Copies the window oldest to newest.
    pub fn to_vec(&self) -> (out: Vec<Option<T>>)
        requires
            self.wf(),
        ensures
            out@ == self@,
    {
        let mut out: Vec<Option<T>> = Vec::new();
        let start = (self.head + HISTORY_CAPACITY - self.len) % HISTORY_CAPACITY;
        let mut offset: usize = 0;
        while offset < self.len
            invariant
                self.wf(),
                offset <= self.len,
                start == (self.head + HISTORY_CAPACITY - self.len) % (HISTORY_CAPACITY as int),
                out@ == self@.take(offset as int),
            decreases self.len - offset,
        {
            let index = (start + offset) % HISTORY_CAPACITY;
            proof {
                let cap = HISTORY_CAPACITY as int;
                assert(index == (self.head + cap - self.len + offset) % cap);
            }
            out.push(self.slots[index]);
            proof {
                assert(self@.take(offset + 1) =~= self@.take(offset as int).push(self@[offset as int]));
            }
            offset = offset + 1;
        }
        proof {
            assert(self@.take(self.len as int) =~= self@);
        }
        out
    }

    /// Number of valid slots.
    pub fn len(&self) -> (n: usize)
        ensures
            n == self@.len(),
    {
        self.len
    }
}

} // verus!
