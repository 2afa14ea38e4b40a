//! The context handle: what a process body may touch while it runs.
//!
//! The context carries the virtual time as of the process's resumption,
//! one FIFO mailbox per process, and one latching interrupt flag per
//! process. The kernel writes (it sets the time, delivers messages,
//! raises flags); process bodies read (they pop their mailbox and query
//! their flag, which lowers it).

use vstd::prelude::*;

use crate::effect::ProcessId;

verus! {

broadcast use vstd::seq_lib::lemma_seq_contains_after_push;

/// One process's queue of not-yet-popped messages.
struct Mailbox<M> {
    pid: ProcessId,
    messages: Vec<M>,
}

/// The index of `pid`'s mailbox: the first entry carrying `pid`, or -1.
spec fn mbox_index<M>(s: Seq<Mailbox<M>>, pid: ProcessId) -> int
    decreases s.len(),
{
    if s.len() == 0 {
        -1
    } else if s.first().pid == pid {
        0
    } else if mbox_index(s.drop_first(), pid) < 0 {
        -1
    } else {
        1 + mbox_index(s.drop_first(), pid)
    }
}

/// A non-negative index is in range and carries `pid`.
proof fn lemma_mbox_index_valid<M>(s: Seq<Mailbox<M>>, pid: ProcessId)
    ensures
        -1 <= mbox_index(s, pid) < s.len(),
        mbox_index(s, pid) >= 0 ==> s[mbox_index(s, pid)].pid == pid,
    decreases s.len(),
{
    if s.len() > 0 && s.first().pid != pid {
        lemma_mbox_index_valid(s.drop_first(), pid);
        if mbox_index(s.drop_first(), pid) >= 0 {
            assert(s[1 + mbox_index(s.drop_first(), pid)] == s.drop_first()[mbox_index(
                s.drop_first(),
                pid,
            )]);
        }
    }
}

proof fn lemma_mbox_index_found<M>(s: Seq<Mailbox<M>>, pid: ProcessId, i: int)
    requires
        0 <= i < s.len(),
        s[i].pid == pid,
        forall|j: int| 0 <= j < i ==> s[j].pid != pid,
    ensures
        mbox_index(s, pid) == i,
    decreases s.len(),
{
    if i > 0 {
        assert forall|j: int| 0 <= j < i - 1 implies s.drop_first()[j].pid != pid by {
            assert(s.drop_first()[j] == s[j + 1]);
        }
        assert(s.drop_first()[i - 1] == s[i]);
        lemma_mbox_index_found(s.drop_first(), pid, i - 1);
    }
}

proof fn lemma_mbox_index_absent<M>(s: Seq<Mailbox<M>>, pid: ProcessId)
    requires
        forall|j: int| 0 <= j < s.len() ==> s[j].pid != pid,
    ensures
        mbox_index(s, pid) == -1,
    decreases s.len(),
{
    if s.len() > 0 {
        assert forall|j: int| 0 <= j < s.drop_first().len() implies s.drop_first()[j].pid != pid by {
            assert(s.drop_first()[j] == s[j + 1]);
        }
        lemma_mbox_index_absent(s.drop_first(), pid);
    }
}

/// Two tables with the same pids at the same places index alike.
proof fn lemma_mbox_index_same_pids<M>(s1: Seq<Mailbox<M>>, s2: Seq<Mailbox<M>>, pid: ProcessId)
    requires
        s1.len() == s2.len(),
        forall|j: int| 0 <= j < s1.len() ==> s1[j].pid == s2[j].pid,
    ensures
        mbox_index(s1, pid) == mbox_index(s2, pid),
    decreases s1.len(),
{
    if s1.len() > 0 {
        assert(s1.first().pid == s2.first().pid);
        assert forall|j: int| 0 <= j < s1.drop_first().len() implies s1.drop_first()[j].pid
            == s2.drop_first()[j].pid by {
            assert(s1.drop_first()[j] == s1[j + 1]);
            assert(s2.drop_first()[j] == s2[j + 1]);
        }
        lemma_mbox_index_same_pids(s1.drop_first(), s2.drop_first(), pid);
    }
}

/// Appending a mailbox for another pid leaves a lookup unchanged.
proof fn lemma_mbox_index_push<M>(s: Seq<Mailbox<M>>, e: Mailbox<M>, pid: ProcessId)
    requires
        e.pid != pid,
    ensures
        mbox_index(s.push(e), pid) == mbox_index(s, pid),
    decreases s.len(),
{
    if s.len() == 0 {
        assert(s.push(e).first().pid != pid);
        assert(s.push(e).drop_first() =~= Seq::<Mailbox<M>>::empty());
        assert(mbox_index(Seq::<Mailbox<M>>::empty(), pid) == -1);
        assert(mbox_index(s, pid) == -1);
    } else {
        assert(s.push(e).first() == s.first());
        assert(s.push(e).drop_first() =~= s.drop_first().push(e));
        lemma_mbox_index_push(s.drop_first(), e, pid);
    }
}

/// The interrupt list with every occurrence of `pid` removed.
pub open spec fn remove_all(s: Seq<ProcessId>, pid: ProcessId) -> Seq<ProcessId>
    decreases s.len(),
{
    if s.len() == 0 {
        Seq::empty()
    } else if s.last() == pid {
        remove_all(s.drop_last(), pid)
    } else {
        remove_all(s.drop_last(), pid).push(s.last())
    }
}

pub proof fn lemma_remove_all_contains(s: Seq<ProcessId>, pid: ProcessId, q: ProcessId)
    ensures
        remove_all(s, pid).contains(q) == (s.contains(q) && q != pid),
    decreases s.len(),
{
    if s.len() == 0 {
        assert(!s.contains(q));
        assert(!remove_all(s, pid).contains(q));
    } else {
        let d = s.drop_last();
        lemma_remove_all_contains(d, pid, q);
        assert(s.contains(q) == (d.contains(q) || s.last() == q)) by {
            if s.contains(q) {
                let i = choose|i: int| 0 <= i < s.len() && s[i] == q;
                if i < s.len() - 1 {
                    assert(d[i] == q);
                    assert(d.contains(q));
                }
            }
            if d.contains(q) {
                let i = choose|i: int| 0 <= i < d.len() && d[i] == q;
                assert(s[i] == q);
                assert(s.contains(q));
            }
            if s.last() == q {
                assert(s[s.len() - 1] == q);
                assert(s.contains(q));
            }
        }
    }
}

/// The shared handle the kernel and the process bodies both see.
pub struct Context<M> {
    time: u64,
    mailboxes: Vec<Mailbox<M>>,
    interrupted: Vec<ProcessId>,
}

impl<M> Context<M> {
    /// The virtual time as of the owning process's latest resumption.
    pub closed spec fn spec_time(&self) -> u64 {
        self.time
    }

    /// The messages queued for `pid`, front of the mailbox first.
    pub closed spec fn mailbox(&self, pid: ProcessId) -> Seq<M> {
        let i = mbox_index(self.mailboxes@, pid);
        if i >= 0 {
            self.mailboxes@[i].messages@
        } else {
            Seq::empty()
        }
    }

    /// Whether `pid`'s interrupt flag is up.
    pub closed spec fn is_interrupted(&self, pid: ProcessId) -> bool {
        self.interrupted@.contains(pid)
    }

    /// Create a context: time zero, no messages, no flags up.
    pub fn new() -> (c: Context<M>)
        ensures
            c.spec_time() == 0,
            forall|pid: ProcessId| #[trigger] c.mailbox(pid) == Seq::<M>::empty(),
            forall|pid: ProcessId| !(#[trigger] c.is_interrupted(pid)),
    {
        let c = Context { time: 0, mailboxes: Vec::new(), interrupted: Vec::new() };
        proof {
            assert forall|pid: ProcessId| #[trigger] c.mailbox(pid) == Seq::<M>::empty() by {
                lemma_mbox_index_absent(c.mailboxes@, pid);
            }
        }
        c
    }

    /// The current simulation time.
    pub fn time(&self) -> (t: u64)
        ensures
            t == self.spec_time(),
    {
        self.time
    }

    /// Only the kernel moves the clock mirror, before it resumes a process.
    pub(crate) fn set_time(&mut self, t: u64)
        ensures
            final(self).spec_time() == t,
            forall|q: ProcessId| #[trigger] final(self).mailbox(q) == old(self).mailbox(q),
            forall|q: ProcessId| #[trigger] final(self).is_interrupted(q) == old(
                self,
            ).is_interrupted(q),
    {
        self.time = t;
    }

    /// Append `message` at the back of `pid`'s mailbox (created lazily).
    #[verifier::loop_isolation(false)]
    pub fn push_message(&mut self, pid: ProcessId, message: M)
        ensures
            push_message_post(*old(self), *final(self), pid, message),
    {
        let ghost s = self.mailboxes@;
        let n = self.mailboxes.len();
        let mut i: usize = 0;
        while i < n
            invariant
                n == s.len(),
                self.mailboxes@ == s,
                self.time == old(self).time,
                self.interrupted@ == old(self).interrupted@,
                0 <= i <= n,
                forall|j: int| 0 <= j < i ==> s[j].pid != pid,
            decreases n - i,
        {
            if self.mailboxes[i].pid == pid {
                proof {
                    lemma_mbox_index_found(s, pid, i as int);
                }
                let mut entry = self.mailboxes.remove(i);
                entry.messages.push(message);
                self.mailboxes.insert(i, entry);
                proof {
                    let s2 = self.mailboxes@;
                    assert(s2 =~= s.update(i as int, s2[i as int]));
                    assert forall|q: ProcessId| q != pid implies self.mailbox(q) == old(
                        self,
                    ).mailbox(q) by {
                        lemma_mbox_index_same_pids(s, s2, q);
                        lemma_mbox_index_valid(s, q);
                    }
                    lemma_mbox_index_same_pids(s, s2, pid);
                }
                return ;
            }
            i += 1;
        }
        proof {
            lemma_mbox_index_absent(s, pid);
        }
        let mut entry = Mailbox { pid: pid, messages: Vec::new() };
        entry.messages.push(message);
        self.mailboxes.push(entry);
        proof {
            let s2 = self.mailboxes@;
            lemma_mbox_index_found(s2, pid, s.len() as int);
            assert(self.mailbox(pid) =~= old(self).mailbox(pid).push(message));
            assert forall|q: ProcessId| q != pid implies self.mailbox(q) == old(self).mailbox(
                q,
            ) by {
                lemma_mbox_index_push(s, s2.last(), q);
                lemma_mbox_index_valid(s, q);
            }
        }
    }

    /// Take the front of `pid`'s mailbox, or report it empty.
    #[verifier::loop_isolation(false)]
    pub fn pop_message(&mut self, pid: ProcessId) -> (r: Option<M>)
        ensures
            pop_message_post(*old(self), *final(self), pid, r),
    {
        let ghost s = self.mailboxes@;
        let n = self.mailboxes.len();
        let mut i: usize = 0;
        while i < n
            invariant
                n == s.len(),
                self.mailboxes@ == s,
                self.time == old(self).time,
                self.interrupted@ == old(self).interrupted@,
                0 <= i <= n,
                forall|j: int| 0 <= j < i ==> s[j].pid != pid,
            decreases n - i,
        {
            if self.mailboxes[i].pid == pid {
                proof {
                    lemma_mbox_index_found(s, pid, i as int);
                }
                let mut entry = self.mailboxes.remove(i);
                if entry.messages.len() == 0 {
                    self.mailboxes.insert(i, entry);
                    proof {
                        assert(self.mailboxes@ =~= s);
                    }
                    return None;
                }
                let m = entry.messages.remove(0);
                self.mailboxes.insert(i, entry);
                proof {
                    let s2 = self.mailboxes@;
                    assert(s2 =~= s.update(i as int, s2[i as int]));
                    assert(s2[i as int].messages@ =~= s[i as int].messages@.drop_first());
                    assert forall|q: ProcessId| q != pid implies self.mailbox(q) == old(
                        self,
                    ).mailbox(q) by {
                        lemma_mbox_index_same_pids(s, s2, q);
                        lemma_mbox_index_valid(s, q);
                    }
                    lemma_mbox_index_same_pids(s, s2, pid);
                }
                return Some(m);
            }
            i += 1;
        }
        proof {
            lemma_mbox_index_absent(s, pid);
        }
        None
    }

    /// Raise `pid`'s interrupt flag. Raising it twice is the same as once.
    #[verifier::loop_isolation(false)]
    pub fn interrupt(&mut self, pid: ProcessId)
        ensures
            interrupt_post(*old(self), *final(self), pid),
    {
        let ghost s = self.interrupted@;
        let n = self.interrupted.len();
        let mut i: usize = 0;
        while i < n
            invariant
                n == s.len(),
                self.interrupted@ == s,
                0 <= i <= n,
            decreases n - i,
        {
            if self.interrupted[i] == pid {
                proof {
                    assert(s[i as int] == pid);
                    assert(s.contains(pid));
                }
                return ;
            }
            i += 1;
        }
        self.interrupted.push(pid);
    }

    /// Read and clear `pid`'s interrupt flag: report whether it was up, and
    /// lower it.
    #[verifier::loop_isolation(false)]
    pub fn check_interrupted(&mut self, pid: ProcessId) -> (r: bool)
        ensures
            check_interrupted_post(*old(self), *final(self), pid, r),
    {
        let ghost s = self.interrupted@;
        let n = self.interrupted.len();
        let mut kept: Vec<ProcessId> = Vec::new();
        let mut found = false;
        let mut i: usize = 0;
        while i < n
            invariant
                n == s.len(),
                self.interrupted@ == s,
                0 <= i <= n,
                kept@ == remove_all(s.take(i as int), pid),
                found == s.take(i as int).contains(pid),
            decreases n - i,
        {
            let x = self.interrupted[i];
            proof {
                assert(s.take(i + 1) =~= s.take(i as int).push(x));
                assert(s.take(i + 1).drop_last() =~= s.take(i as int));
            }
            if x == pid {
                found = true;
                proof {
                    assert(s.take(i + 1)[i as int] == pid);
                    assert(s.take(i + 1).contains(pid));
                }
            } else {
                kept.push(x);
            }
            i += 1;
        }
        proof {
            assert(s.take(n as int) =~= s);
        }
        self.interrupted = kept;
        proof {
            lemma_remove_all_contains(s, pid, pid);
            assert forall|q: ProcessId| q != pid implies self.is_interrupted(q) == old(
                self,
            ).is_interrupted(q) by {
                lemma_remove_all_contains(s, pid, q);
            }
        }
        found
    }
}

impl<M> Default for Context<M> {
    /// The same as `Context::new`.
    fn default() -> (c: Self)
        ensures
            c.spec_time() == 0,
            forall|pid: ProcessId| #[trigger] c.mailbox(pid) == Seq::<M>::empty(),
            forall|pid: ProcessId| !(#[trigger] c.is_interrupted(pid)),
    {
        Context::new()
    }
}

/// The mailboxes, flags and time are untouched.
pub open spec fn context_equiv<M>(pre: Context<M>, post: Context<M>) -> bool {
    &&& post.spec_time() == pre.spec_time()
    &&& forall|q: ProcessId| #[trigger] post.mailbox(q) == pre.mailbox(q)
    &&& forall|q: ProcessId| #[trigger] post.is_interrupted(q) == pre.is_interrupted(q)
}

/// What delivering `message` to `pid` does: it goes to the back of `pid`'s
/// mailbox; every other observable is untouched.
pub open spec fn push_message_post<M>(
    pre: Context<M>,
    post: Context<M>,
    pid: ProcessId,
    message: M,
) -> bool {
    &&& post.mailbox(pid) == pre.mailbox(pid).push(message)
    &&& forall|q: ProcessId| q != pid ==> #[trigger] post.mailbox(q) == pre.mailbox(q)
    &&& forall|q: ProcessId| #[trigger] post.is_interrupted(q) == pre.is_interrupted(q)
    &&& post.spec_time() == pre.spec_time()
}

/// What popping `pid`'s mailbox does: the front message comes out and the
/// rest move up; an empty mailbox reports `None` and nothing changes.
pub open spec fn pop_message_post<M>(
    pre: Context<M>,
    post: Context<M>,
    pid: ProcessId,
    r: Option<M>,
) -> bool {
    &&& if pre.mailbox(pid).len() == 0 {
        r is None && post.mailbox(pid) == pre.mailbox(pid)
    } else {
        r == Some(pre.mailbox(pid).first()) && post.mailbox(pid) == pre.mailbox(pid).drop_first()
    }
    &&& forall|q: ProcessId| q != pid ==> #[trigger] post.mailbox(q) == pre.mailbox(q)
    &&& forall|q: ProcessId| #[trigger] post.is_interrupted(q) == pre.is_interrupted(q)
    &&& post.spec_time() == pre.spec_time()
}

/// What an interrupt does: `pid`'s flag is up afterwards, no matter how
/// often it was already up; every other observable is untouched.
pub open spec fn interrupt_post<M>(pre: Context<M>, post: Context<M>, pid: ProcessId) -> bool {
    &&& post.is_interrupted(pid)
    &&& forall|q: ProcessId| q != pid ==> #[trigger] post.is_interrupted(q) == pre.is_interrupted(
        q,
    )
    &&& forall|q: ProcessId| #[trigger] post.mailbox(q) == pre.mailbox(q)
    &&& post.spec_time() == pre.spec_time()
}

/// What a query does: it reports whether `pid`'s flag was up and lowers
/// it; every other observable is untouched.
pub open spec fn check_interrupted_post<M>(
    pre: Context<M>,
    post: Context<M>,
    pid: ProcessId,
    r: bool,
) -> bool {
    &&& r == pre.is_interrupted(pid)
    &&& !post.is_interrupted(pid)
    &&& forall|q: ProcessId| q != pid ==> #[trigger] post.is_interrupted(q) == pre.is_interrupted(
        q,
    )
    &&& forall|q: ProcessId| #[trigger] post.mailbox(q) == pre.mailbox(q)
    &&& post.spec_time() == pre.spec_time()
}

/// Interrupt latching: however many interrupts hit a process before it
/// next queries its flag, they collapse into one. The first query after
/// them reports true and lowers the flag; a second query, with no
/// interrupt in between, reports false.
pub proof fn lemma_interrupt_latching<M>(
    c0: Context<M>,
    c1: Context<M>,
    c2: Context<M>,
    c3: Context<M>,
    c4: Context<M>,
    pid: ProcessId,
    r1: bool,
    r2: bool,
)
    requires
        interrupt_post(c0, c1, pid),
        interrupt_post(c1, c2, pid),
        check_interrupted_post(c2, c3, pid, r1),
        check_interrupted_post(c3, c4, pid, r2),
    ensures
        r1 == true,
        r2 == false,
{
}

/// Message order: sends processed earlier are popped earlier. Starting
/// from an empty mailbox, delivering `m1` and then `m2` makes the next
/// two pops return `m1` and then `m2`. (For the statement that the pop
/// numbered `k` returns the `k`-th delivered message whatever the
/// mailbox already held, see `fifo::lemma_fifo_order`: a delivery pushes
/// at the back and a pop drops the front, exactly the queue discipline
/// modelled there.)
pub proof fn lemma_message_order<M>(
    c0: Context<M>,
    c1: Context<M>,
    c2: Context<M>,
    c3: Context<M>,
    c4: Context<M>,
    pid: ProcessId,
    m1: M,
    m2: M,
    r1: Option<M>,
    r2: Option<M>,
)
    requires
        c0.mailbox(pid).len() == 0,
        push_message_post(c0, c1, pid, m1),
        push_message_post(c1, c2, pid, m2),
        pop_message_post(c2, c3, pid, r1),
        pop_message_post(c3, c4, pid, r2),
    ensures
        r1 == Some(m1),
        r2 == Some(m2),
{
    assert(c2.mailbox(pid) =~= seq![m1, m2]);
    assert(c3.mailbox(pid) =~= seq![m2]);
}


} // verus!
