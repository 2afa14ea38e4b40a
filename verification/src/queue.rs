//! The event queue: pending events, ordered by time.
//!
//! Events are kept sorted by non-decreasing time. A push inserts the new
//! event after every event whose time is less than or equal to its own,
//! so that events scheduled for the same instant fire in the order they
//! were pushed (stable FIFO tie-breaking); a pop takes the front, which
//! is the earliest-time, earliest-pushed event.

use vstd::prelude::*;

use crate::effect::Event;

verus! {

/// Sorted by time, non-decreasing.
pub open spec fn sorted_by_time(s: Seq<Event>) -> bool {
    forall|i: int, j: int| 0 <= i <= j < s.len() ==> s[i].time <= s[j].time
}

/// The index at which an event of time `t` is inserted: just after the
/// last event whose time is `<= t`.
pub open spec fn insert_index(s: Seq<Event>, t: u64) -> int
    decreases s.len(),
{
    if s.len() == 0 {
        0
    } else if s.first().time <= t {
        1 + insert_index(s.drop_first(), t)
    } else {
        0
    }
}

/// What a push does to the queue: a stable insert at `insert_index`.
pub open spec fn queue_insert(s: Seq<Event>, e: Event) -> Seq<Event> {
    s.insert(insert_index(s, e.time), e)
}

pub proof fn lemma_insert_index_bounds(s: Seq<Event>, t: u64)
    ensures
        0 <= insert_index(s, t) <= s.len(),
    decreases s.len(),
{
    if s.len() > 0 && s.first().time <= t {
        lemma_insert_index_bounds(s.drop_first(), t);
    }
}

/// Every event before the insertion index has time `<= t`; in a sorted
/// queue, every event at or after it has time `> t`.
pub proof fn lemma_insert_index_splits(s: Seq<Event>, t: u64)
    requires
        sorted_by_time(s),
    ensures
        forall|i: int| 0 <= i < insert_index(s, t) ==> s[i].time <= t,
        forall|i: int| insert_index(s, t) <= i < s.len() ==> s[i].time > t,
    decreases s.len(),
{
    lemma_insert_index_bounds(s, t);
    if s.len() == 0 {
    } else if s.first().time <= t {
        assert(sorted_by_time(s.drop_first()));
        lemma_insert_index_splits(s.drop_first(), t);
        assert forall|i: int| 0 <= i < insert_index(s, t) implies s[i].time <= t by {
            if i > 0 {
                assert(s.drop_first()[i - 1] == s[i]);
            }
        }
        assert forall|i: int| insert_index(s, t) <= i < s.len() implies s[i].time > t by {
            assert(s.drop_first()[i - 1] == s[i]);
        }
    } else {
        // insert_index is 0 and the first event already has time > t;
        // sortedness carries that to every later event.
        assert forall|i: int| 0 <= i < s.len() implies s[i].time > t by {
            assert(s.first().time <= s[i].time);
        }
    }
}

/// In a sorted queue the insertion index is the only index `p` with
/// times `<= t` strictly before it and, if `p` is not the end, a time
/// `> t` at it.
pub proof fn lemma_insert_index_unique(s: Seq<Event>, t: u64, p: int)
    requires
        sorted_by_time(s),
        0 <= p <= s.len(),
        forall|j: int| 0 <= j < p ==> s[j].time <= t,
        p < s.len() ==> s[p].time > t,
    ensures
        p == insert_index(s, t),
{
    lemma_insert_index_bounds(s, t);
    lemma_insert_index_splits(s, t);
    let q = insert_index(s, t);
    if p < q {
        assert(s[p].time <= t);
        assert(s[p].time > t);
    } else if q < p {
        assert(s[q].time <= t);
        assert(s[q].time > t);
    }
}

/// A stable insert keeps the queue sorted.
pub proof fn lemma_queue_insert_sorted(s: Seq<Event>, e: Event)
    requires
        sorted_by_time(s),
    ensures
        sorted_by_time(queue_insert(s, e)),
{
    lemma_insert_index_bounds(s, e.time);
    lemma_insert_index_splits(s, e.time);
    let p = insert_index(s, e.time);
    let s2 = queue_insert(s, e);
    assert forall|i: int, j: int| 0 <= i <= j < s2.len() implies s2[i].time <= s2[j].time by {
        if i < p {
            assert(s2[i] == s[i]);
        } else if i == p {
            assert(s2[i] == e);
        } else {
            assert(s2[i] == s[i - 1]);
        }
        if j < p {
            assert(s2[j] == s[j]);
        } else if j == p {
            assert(s2[j] == e);
        } else {
            assert(s2[j] == s[j - 1]);
        }
    }
}

/// A stable insert keeps every time at or above a floor.
pub proof fn lemma_queue_insert_floor(s: Seq<Event>, e: Event, c: u64)
    requires
        forall|i: int| 0 <= i < s.len() ==> #[trigger] s[i].time >= c,
        e.time >= c,
    ensures
        forall|i: int|
            0 <= i < queue_insert(s, e).len() ==> #[trigger] queue_insert(s, e)[i].time >= c,
{
    lemma_insert_index_bounds(s, e.time);
    let p = insert_index(s, e.time);
    let s2 = queue_insert(s, e);
    assert forall|i: int| 0 <= i < s2.len() implies #[trigger] s2[i].time >= c by {
        if i < p {
            assert(s2[i] == s[i]);
        } else if i == p {
            assert(s2[i] == e);
        } else {
            assert(s2[i] == s[i - 1]);
        }
    }
}

/// Appending an event no earlier than the last keeps a log sorted.
pub proof fn lemma_sorted_append(s: Seq<Event>, e: Event)
    requires
        sorted_by_time(s),
        s.len() > 0 ==> s.last().time <= e.time,
    ensures
        sorted_by_time(s.push(e)),
{
    let s2 = s.push(e);
    assert forall|i: int, j: int| 0 <= i <= j < s2.len() implies s2[i].time <= s2[j].time by {
        if j < s.len() {
            assert(s2[i] == s[i] && s2[j] == s[j]);
        } else if i < s.len() {
            assert(s2[i] == s[i]);
            assert(s[i].time <= s.last().time);
        }
    }
}

/// A min-priority queue of events, FIFO-stable among equal times.
pub struct EventQueue {
    entries: Vec<Event>,
}

impl View for EventQueue {
    type V = Seq<Event>;

    closed spec fn view(&self) -> Seq<Event> {
        self.entries@
    }
}

impl EventQueue {
    /// The queue's events are sorted by non-decreasing time.
    pub open spec fn wf(&self) -> bool {
        sorted_by_time(self@)
    }

    pub fn new() -> (q: EventQueue)
        ensures
            q@ == Seq::<Event>::empty(),
            q.wf(),
    {
        EventQueue { entries: Vec::new() }
    }

    pub fn len(&self) -> (n: usize)
        ensures
            n == self@.len(),
    {
        self.entries.len()
    }

    pub fn is_empty(&self) -> (b: bool)
        ensures
            b == (self@.len() == 0),
    {
        self.entries.len() == 0
    }

    /// Insert an event, stably: after every event of equal or earlier time.
    pub fn push(&mut self, e: Event)
        requires
            old(self).wf(),
        ensures
            final(self).wf(),
            final(self)@ == queue_insert(old(self)@, e),
    {
        proof {
            lemma_insert_index_bounds(self@, e.time);
            lemma_queue_insert_sorted(self@, e);
        }
        let mut i: usize = 0;
        let ghost s = self.entries@;
        while i < self.entries.len() && self.entries[i].time <= e.time
            invariant
                self.entries@ == s,
                0 <= i <= s.len(),
                forall|j: int| 0 <= j < i ==> s[j].time <= e.time,
            decreases s.len() - i,
        {
            i += 1;
        }
        proof {
            lemma_insert_index_unique(s, e.time, i as int);
        }
        self.entries.insert(i, e);
    }

    /// Take the earliest event: the front. Among events of equal time the
    /// front is the one pushed first.
    pub fn pop(&mut self) -> (r: Option<Event>)
        requires
            old(self).wf(),
        ensures
            final(self).wf(),
            old(self)@.len() == 0 ==> r is None && final(self)@ == old(self)@,
            old(self)@.len() > 0 ==> r == Some(old(self)@.first()) && final(self)@ == old(
                self,
            )@.drop_first(),
    {
        if self.entries.len() == 0 {
            None
        } else {
            let e = self.entries.remove(0);
            proof {
                assert(self.entries@ =~= old(self)@.drop_first());
            }
            Some(e)
        }
    }
}


} // verus!
