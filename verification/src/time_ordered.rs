use crate::msg::Msg;
use vstd::prelude::*;

verus! {

/// Due times never decrease along the sequence.
pub open spec fn due_sorted<T>(s: Seq<Msg<T>>) -> bool {
    forall|a: int, b: int| 0 <= a < b < s.len() ==> (#[trigger] s[a]).due_at <= (#[trigger] s[b]).due_at
}

/// Position at which a message due at `t` enters a due-sorted sequence:
/// after every entry due at `t` or earlier, so that insertion order is kept
/// among equal due times.
pub open spec fn stable_pos<T>(s: Seq<Msg<T>>, t: u64) -> int
    decreases s.len(),
{
    if s.len() == 0 {
        0
    } else if s[0].due_at <= t {
        1 + stable_pos(s.drop_first(), t)
    } else {
        0
    }
}

/// A due-sorted sequence with `m` inserted at its stable position.
pub open spec fn stable_insert<T>(s: Seq<Msg<T>>, m: Msg<T>) -> Seq<Msg<T>> {
    s.insert(stable_pos(s, m.due_at), m)
}

proof fn lemma_stable_pos_char<T>(s: Seq<Msg<T>>, t: u64, i: int)
    requires
        0 <= i <= s.len(),
        forall|k: int| 0 <= k < i ==> (#[trigger] s[k]).due_at <= t,
        forall|k: int| i <= k < s.len() ==> (#[trigger] s[k]).due_at > t,
    ensures
        stable_pos(s, t) == i,
    decreases s.len(),
{
    if s.len() == 0 {
    } else if s[0].due_at <= t {
        assert(i >= 1);
        let d = s.drop_first();
        assert(forall|k: int| 0 <= k < i - 1 ==> (#[trigger] d[k]).due_at <= t);
        assert(forall|k: int| i - 1 <= k < d.len() ==> (#[trigger] d[k]).due_at > t);
        lemma_stable_pos_char(d, t, i - 1);
    } else {
        assert(i == 0);
    }
}

/// The pending messages of the bus, held in due-time order.
///
/// The queue is a multiset of envelopes ordered by `due_at` ascending; among
/// equal due times insertion order is preserved, so deliveries with the same
/// due time stay first-in first-out.
pub struct TimeOrdered<T> {
    items: Vec<Msg<T>>,
}

impl<T> View for TimeOrdered<T> {
    type V = Seq<Msg<T>>;

    closed spec fn view(&self) -> Seq<Msg<T>> {
        self.items@
    }
}

impl<T> TimeOrdered<T> {
    /// An empty queue.
    pub fn new() -> (r: TimeOrdered<T>)
        ensures
            r@ == Seq::<Msg<T>>::empty(),
    {
        TimeOrdered { items: Vec::new() }
    }

    /// Number of pending messages.
    pub fn len(&self) -> (r: usize)
        ensures
            r == self@.len(),
    {
        self.items.len()
    }

    /// Inserts `m` at its stable position: after every entry due at
    /// `m.due_at` or earlier, before every entry due later.
    pub fn insert(&mut self, m: Msg<T>)
        requires
            due_sorted(old(self)@),
        ensures
            final(self)@ == stable_insert(old(self)@, m),
            final(self)@.len() == old(self)@.len() + 1,
            due_sorted(final(self)@),
            forall|k: int|
                0 <= k < final(self)@.len() ==> (final(self)@[k] == m || old(self)@.contains(
                    #[trigger] final(self)@[k],
                )),
    {
        let ghost s0 = self.items@;
        let mut i: usize = self.items.len();
        while i > 0 && self.items[i - 1].due_at > m.due_at
            invariant
                i <= self.items@.len(),
                self.items@ == s0,
                forall|k: int| i <= k < s0.len() ==> (#[trigger] s0[k]).due_at > m.due_at,
            decreases i,
        {
            i -= 1;
        }
        proof {
            assert(forall|k: int| 0 <= k < i ==> (#[trigger] s0[k]).due_at <= m.due_at);
            lemma_stable_pos_char(s0, m.due_at, i as int);
        }
        self.items.insert(i, m);
        proof {
            let s1 = self.items@;
            assert(s1 == stable_insert(s0, m));
            assert forall|a: int, b: int|
                0 <= a < b < s1.len() implies (#[trigger] s1[a]).due_at <= (
            #[trigger] s1[b]).due_at by {
                if a < i && b < i {
                } else if b == i {
                    assert(s1[a] == s0[a]);
                } else if a == i {
                    assert(s1[b] == s0[b - 1]);
                } else if a < i {
                    assert(s1[a] == s0[a] && s1[b] == s0[b - 1]);
                } else {
                    assert(s1[a] == s0[a - 1] && s1[b] == s0[b - 1]);
                }
            };
            assert forall|k: int|
                0 <= k < s1.len() implies (s1[k] == m || s0.contains(#[trigger] s1[k])) by {
                if k < i {
                    assert(s1[k] == s0[k]);
                } else if k > i {
                    assert(s1[k] == s0[k - 1]);
                }
            };
        }
    }

    /// Removes and returns the earliest message if it is due at `now` or
    /// before; otherwise leaves the queue unchanged.
    pub fn pop_due(&mut self, now: u64) -> (r: Option<Msg<T>>)
        ensures
            match r {
                Some(m) => old(self)@.len() > 0 && m == old(self)@[0] && m.due_at <= now
                    && final(self)@ == old(self)@.drop_first(),
                None => final(self)@ == old(self)@ && (old(self)@.len() == 0 || old(self)@[0].due_at > now),
            },
            due_sorted(old(self)@) ==> due_sorted(final(self)@),
    {
        if self.items.len() > 0 {
            if self.items[0].due_at <= now {
                let m = self.items.remove(0);
                return Some(m);
            }
        }
        None
    }

    /// Whether the earliest pending message is due at `now` or before.
    pub fn has_due(&self, now: u64) -> (r: bool)
        ensures
            r == (self@.len() > 0 && self@[0].due_at <= now),
    {
        self.items.len() > 0 && self.items[0].due_at <= now
    }

    /// Removes and returns the earliest message, which the caller knows to
    /// be due already.
    pub fn pop_front_due(&mut self, now: u64) -> (m: Msg<T>)
        requires
            old(self)@.len() > 0,
            old(self)@[0].due_at <= now,
        ensures
            m == old(self)@[0],
            m.due_at <= now,
            final(self)@ == old(self)@.drop_first(),
            due_sorted(old(self)@) ==> due_sorted(final(self)@),
    {
        self.items.remove(0)
    }

    /// Due time of the earliest pending message, if any.
    pub fn peek_next_due_at(&self) -> (r: Option<u64>)
        ensures
            match r {
                Some(t) => self@.len() > 0 && t == self@[0].due_at,
                None => self@.len() == 0,
            },
    {
        if self.items.len() > 0 {
            Some(self.items[0].due_at)
        } else {
            None
        }
    }

    /// Discards every pending message.
    pub fn clear(&mut self)
        ensures
            final(self)@ == Seq::<Msg<T>>::empty(),
    {
        self.items = Vec::new();
    }
}

} // verus!
