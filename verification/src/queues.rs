//! Per-priority ready queues coupled to the priority bitmap.
//!
//! The queue/bitmap pair has exactly three mutators (`enqueue_task`,
//! `dequeue_task`, `remove_task_from_queue`); they are the only places where
//! the coupling between the two representations is established.

use vstd::prelude::*;

use crate::{Error, MAX_PRIORITY, QUEUE_LEN};

verus! {

/// The task ids a queue holds, front to back.
pub uninterp spec fn task_queue_elems(q: TaskQueue) -> Seq<usize>;

/// Bounded FIFO of task ids. Capacity is `QUEUE_LEN`: room for every task
/// plus one transient in-flight enqueue during rotation.
#[verifier::external_body]
pub struct TaskQueue {
    inner: heapless::Deque<usize, QUEUE_LEN>,
}

impl TaskQueue {
    /// Relies on `heapless::Deque::new`: a freshly created deque is empty.
    #[verifier::external_body]
    pub fn new() -> (q: TaskQueue)
        ensures
            task_queue_elems(q) == Seq::<usize>::empty(),
    {
        TaskQueue { inner: heapless::Deque::new() }
    }

    /// Relies on `heapless::Deque::len`: the number of elements held.
    #[verifier::external_body]
    pub fn len(&self) -> (n: usize)
        ensures
            n == task_queue_elems(*self).len(),
    {
        self.inner.len()
    }

    /// Relies on `heapless::Deque::push_back`: appends at the back when the
    /// deque holds fewer than `QUEUE_LEN` elements, else rejects the item.
    #[verifier::external_body]
    pub fn push_back(&mut self, id: usize) -> (ok: bool)
        ensures
            task_queue_elems(*old(self)).len() < QUEUE_LEN ==> ok
                && task_queue_elems(*final(self)) == task_queue_elems(*old(self)).push(id),
            task_queue_elems(*old(self)).len() >= QUEUE_LEN ==> !ok
                && task_queue_elems(*final(self)) == task_queue_elems(*old(self)),
    {
        self.inner.push_back(id).is_ok()
    }

    /// Relies on `heapless::Deque::pop_front`: removes and returns the front
    /// element, or `None` when the deque is empty.
    #[verifier::external_body]
    pub fn pop_front(&mut self) -> (r: Option<usize>)
        ensures
            task_queue_elems(*old(self)).len() == 0 ==> r is None
                && task_queue_elems(*final(self)) == task_queue_elems(*old(self)),
            task_queue_elems(*old(self)).len() > 0 ==> r == Some(task_queue_elems(*old(self))[0])
                && task_queue_elems(*final(self)) == task_queue_elems(*old(self)).drop_first(),
    {
        self.inner.pop_front()
    }
}

/// `s` with every occurrence of `id` removed, relative order kept.
pub open spec fn remove_all(s: Seq<usize>, id: usize) -> Seq<usize>
    decreases s.len(),
{
    if s.len() == 0 {
        Seq::empty()
    } else if s[0] == id {
        remove_all(s.drop_first(), id)
    } else {
        seq![s[0]] + remove_all(s.drop_first(), id)
    }
}

/// Membership in `remove_all(s, id)`: exactly the elements of `s` other than `id`.
pub proof fn lemma_remove_all_contains(s: Seq<usize>, id: usize, x: usize)
    ensures
        remove_all(s, id).contains(x) <==> (s.contains(x) && x != id),
    decreases s.len(),
{
    if s.len() > 0 {
        lemma_remove_all_contains(s.drop_first(), id, x);
        assert(s.contains(x) <==> (s[0] == x || s.drop_first().contains(x))) by {
            if s.contains(x) {
                let i = choose|i: int| 0 <= i < s.len() && s[i] == x;
                if i > 0 {
                    assert(s.drop_first()[i - 1] == x);
                }
            }
            if s.drop_first().contains(x) {
                let i = choose|i: int| 0 <= i < s.drop_first().len() && s.drop_first()[i] == x;
                assert(s[i + 1] == x);
            }
        }
        if s[0] != id && remove_all(s, id).contains(x) {
            let j = choose|j: int| 0 <= j < remove_all(s, id).len() && remove_all(s, id)[j] == x;
            if j > 0 {
                assert(remove_all(s.drop_first(), id)[j - 1] == x);
            }
        }
        if s[0] != id && s.contains(x) && x != id {
            if s[0] == x {
                assert(remove_all(s, id)[0] == x);
            } else {
                let j = choose|j: int|
                    0 <= j < remove_all(s.drop_first(), id).len()
                        && remove_all(s.drop_first(), id)[j] == x;
                assert(remove_all(s, id)[j + 1] == x);
            }
        }
    }
}

/// Removing occurrences never lengthens a sequence.
pub proof fn lemma_remove_all_len(s: Seq<usize>, id: usize)
    ensures
        remove_all(s, id).len() <= s.len(),
    decreases s.len(),
{
    if s.len() > 0 {
        lemma_remove_all_len(s.drop_first(), id);
    }
}

/// Removing occurrences keeps distinctness.
pub proof fn lemma_remove_all_no_duplicates(s: Seq<usize>, id: usize)
    requires
        s.no_duplicates(),
    ensures
        remove_all(s, id).no_duplicates(),
    decreases s.len(),
{
    if s.len() > 0 {
        assert(s.drop_first().no_duplicates());
        lemma_remove_all_no_duplicates(s.drop_first(), id);
        if s[0] != id {
            lemma_remove_all_contains(s.drop_first(), id, s[0]);
            assert(!s.drop_first().contains(s[0])) by {
                if s.drop_first().contains(s[0]) {
                    let i = choose|i: int|
                        0 <= i < s.drop_first().len() && s.drop_first()[i] == s[0];
                    assert(s[i + 1] == s[0]);
                }
            }
            let r = seq![s[0]] + remove_all(s.drop_first(), id);
            assert forall|i: int, j: int| 0 <= i < j < r.len() implies r[i] != r[j] by {
                if i == 0 {
                    assert(remove_all(s.drop_first(), id).contains(r[j])) by {
                        assert(remove_all(s.drop_first(), id)[j - 1] == r[j]);
                    }
                }
            }
        }
    }
}

/// Whether bit `p` of `m` is set.
pub open spec fn bit_set(m: u32, p: u32) -> bool {
    (m >> p) & 1u32 == 1u32
}

/// `m1` equals `m0` with bit `p` set and no other bit changed.
pub open spec fn is_bitmap_with_set(m0: u32, m1: u32, p: u32) -> bool {
    forall|q: u32| q < 32 ==> (#[trigger] bit_set(m1, q) <==> (bit_set(m0, q) || q == p))
}

/// `m1` equals `m0` with bit `p` cleared and no other bit changed.
pub open spec fn is_bitmap_with_clear(m0: u32, m1: u32, p: u32) -> bool {
    forall|q: u32| q < 32 ==> (#[trigger] bit_set(m1, q) <==> (bit_set(m0, q) && q != p))
}

/// Setting bit `p` sets exactly that bit and leaves every other bit alone.
pub proof fn lemma_bit_or(m: u32, p: u32, q: u32)
    by (bit_vector)
    requires
        p < 32,
        q < 32,
    ensures
        ((m | (1u32 << p)) >> q) & 1u32 == 1u32 <==> (((m >> q) & 1u32 == 1u32) || p == q),
{
}

/// Clearing bit `p` clears exactly that bit and leaves every other bit alone.
pub proof fn lemma_bit_clear(m: u32, p: u32, q: u32)
    by (bit_vector)
    requires
        p < 32,
        q < 32,
    ensures
        ((m & !(1u32 << p)) >> q) & 1u32 == 1u32 <==> (((m >> q) & 1u32 == 1u32) && p != q),
{
}

/// A single bit probe yields 0 or 1.
pub proof fn lemma_bit_probe(m: u32, p: u32)
    by (bit_vector)
    ensures
        (m >> p) & 1u32 == 0u32 || (m >> p) & 1u32 == 1u32,
{
}

/// Abstract value of a `ReadySet`: the queue contents per priority and the
/// bitmap word.
pub struct ReadyQueuesView {
    pub queues: Seq<Seq<usize>>,
    pub bitmap: u32,
}

/// The per-priority ready queues together with the priority bitmap whose bit
/// `p` mirrors "queue `p` is non-empty".
pub struct ReadySet {
    pub queues: Vec<TaskQueue>,
    pub bitmap: u32,
}

impl View for ReadySet {
    type V = ReadyQueuesView;

    open spec fn view(&self) -> ReadyQueuesView {
        ReadyQueuesView {
            queues: Seq::new(self.queues@.len() as nat, |i: int| task_queue_elems(self.queues@[i])),
            bitmap: self.bitmap,
        }
    }
}

impl ReadySet {
    /// The coupling invariant: one queue per priority, bit `p` set iff queue
    /// `p` is non-empty, and no bit set beyond the last priority.
    pub open spec fn wf(self) -> bool {
        &&& self@.queues.len() == MAX_PRIORITY + 1
        &&& forall|p: u32| p <= MAX_PRIORITY ==> (bit_set(self@.bitmap, p) <==> #[trigger] self@.queues[p as int].len() != 0)
        &&& forall|p: u32| MAX_PRIORITY < p < 32 ==> !bit_set(self@.bitmap, p)
    }

    /// One empty queue per priority; no bitmap bit set.
    pub fn new() -> (r: ReadySet)
        ensures
            r@.queues.len() == MAX_PRIORITY + 1,
            forall|p: int| 0 <= p <= MAX_PRIORITY ==> #[trigger] r@.queues[p] == Seq::<usize>::empty(),
            r@.bitmap == 0u32,
            r.wf(),
    {
        let mut queues: Vec<TaskQueue> = Vec::new();
        let mut i: usize = 0;
        while i <= MAX_PRIORITY
            invariant
                i <= MAX_PRIORITY + 1,
                queues@.len() == i,
                forall|p: int| 0 <= p < i ==> task_queue_elems(#[trigger] queues@[p]) == Seq::<usize>::empty(),
            decreases MAX_PRIORITY + 1 - i,
        {
            queues.push(TaskQueue::new());
            i = i + 1;
        }
        let r = ReadySet { queues, bitmap: 0u32 };
        proof {
            assert forall|p: u32| p < 32 implies !bit_set(r@.bitmap, p) by {
                assert((0u32 >> p) & 1u32 == 0u32) by (bit_vector);
            }
        }
        r
    }

    /// Appends `task_id` to queue `priority` and sets bitmap bit `priority`;
    /// fails with `TaskFull` when that queue is at capacity. Preserves the
    /// coupling invariant: bit `p` set iff queue `p` non-empty.
    pub fn enqueue_task(&mut self, task_id: usize, priority: usize) -> (r: Result<(), Error>)
        requires
            priority < old(self)@.queues.len(),
            priority <= MAX_PRIORITY,
        ensures
            old(self).wf() ==> final(self).wf(),
            final(self)@.queues.len() == old(self)@.queues.len(),
            old(self)@.queues[priority as int].len() < QUEUE_LEN ==> {
                &&& r == Ok::<(), Error>(())
                &&& final(self)@.queues == old(self)@.queues.update(
                    priority as int,
                    old(self)@.queues[priority as int].push(task_id),
                )
                &&& is_bitmap_with_set(old(self)@.bitmap, final(self)@.bitmap, priority as u32)
            },
            old(self)@.queues[priority as int].len() >= QUEUE_LEN ==> {
                &&& r == Err::<(), Error>(Error::TaskFull)
                &&& final(self)@.queues == old(self)@.queues
                &&& final(self)@.bitmap == old(self)@.bitmap
            },
    {
        let ghost v0 = self@;
        let mut q = self.queues.remove(priority);
        let ok = q.push_back(task_id);
        self.queues.insert(priority, q);
        if ok {
            proof {
                assert(self@.queues =~= v0.queues.update(
                    priority as int,
                    v0.queues[priority as int].push(task_id),
                ));
            }
            self.bitmap = self.bitmap | (1u32 << (priority as u32));
            proof {
                assert forall|qb: u32| qb < 32 implies (#[trigger] bit_set(self.bitmap, qb) <==> (
                    bit_set(v0.bitmap, qb) || qb == priority as u32
                )) by {
                    lemma_bit_or(v0.bitmap, priority as u32, qb);
                }
                assert(is_bitmap_with_set(v0.bitmap, self.bitmap, priority as u32));
                if old(self).wf() {
                    assert(self@.queues[priority as int].len() != 0);
                    Self::lemma_wf_single_change(*old(self), *self, priority as u32);
                }
            }
            Ok(())
        } else {
            proof {
                assert(self@.queues =~= v0.queues);
                if old(self).wf() {
                    assert(bit_set(self@.bitmap, priority as u32) <==> self@.queues[priority as int].len() != 0);
                    Self::lemma_wf_single_change(*old(self), *self, priority as u32);
                }
            }
            Err(Error::TaskFull)
        }
    }

    /// Pops the head of queue `priority`; clears bitmap bit `priority` when
    /// the queue is empty afterwards. Preserves the coupling invariant: bit
    /// `p` set iff queue `p` non-empty.
    pub fn dequeue_task(&mut self, priority: usize) -> (r: Option<usize>)
        requires
            priority < old(self)@.queues.len(),
            priority <= MAX_PRIORITY,
        ensures
            old(self).wf() ==> final(self).wf(),
            final(self)@.queues.len() == old(self)@.queues.len(),
            old(self)@.queues[priority as int].len() == 0 ==> {
                &&& r is None
                &&& final(self)@.queues == old(self)@.queues
                &&& is_bitmap_with_clear(old(self)@.bitmap, final(self)@.bitmap, priority as u32)
            },
            old(self)@.queues[priority as int].len() > 0 ==> {
                &&& r == Some(old(self)@.queues[priority as int][0])
                &&& final(self)@.queues == old(self)@.queues.update(
                    priority as int,
                    old(self)@.queues[priority as int].drop_first(),
                )
                &&& (old(self)@.queues[priority as int].len() == 1 ==> is_bitmap_with_clear(
                    old(self)@.bitmap,
                    final(self)@.bitmap,
                    priority as u32,
                ))
                &&& (old(self)@.queues[priority as int].len() > 1 ==> final(self)@.bitmap
                    == old(self)@.bitmap)
            },
    {
        let ghost v0 = self@;
        let mut q = self.queues.remove(priority);
        let r = q.pop_front();
        let now_empty = q.len() == 0;
        self.queues.insert(priority, q);
        proof {
            if v0.queues[priority as int].len() == 0 {
                assert(self@.queues =~= v0.queues);
            } else {
                assert(self@.queues =~= v0.queues.update(
                    priority as int,
                    v0.queues[priority as int].drop_first(),
                ));
            }
        }
        if now_empty {
            self.bitmap = self.bitmap & !(1u32 << (priority as u32));
            proof {
                assert forall|qb: u32| qb < 32 implies (#[trigger] bit_set(self.bitmap, qb) <==> (
                    bit_set(v0.bitmap, qb) && qb != priority as u32
                )) by {
                    lemma_bit_clear(v0.bitmap, priority as u32, qb);
                }
                assert(is_bitmap_with_clear(v0.bitmap, self.bitmap, priority as u32));
            }
        }
        proof {
            if old(self).wf() {
                assert(self@.queues[priority as int].len() != 0 ==> !now_empty);
                assert(!now_empty ==> v0.queues[priority as int].len() != 0);
                Self::lemma_wf_single_change(*old(self), *self, priority as u32);
            }
        }
        r
    }

    /// Removes every occurrence of `task_id` from queue `priority`, relative
    /// order of the rest kept; clears bitmap bit `priority` when the queue is
    /// empty afterwards. Preserves the coupling invariant: bit `p` set iff
    /// queue `p` non-empty.
    pub fn remove_task_from_queue(&mut self, task_id: usize, priority: usize)
        requires
            priority < old(self)@.queues.len(),
            priority <= MAX_PRIORITY,
            old(self)@.queues[priority as int].len() <= QUEUE_LEN,
        ensures
            old(self).wf() ==> final(self).wf(),
            final(self)@.queues.len() == old(self)@.queues.len(),
            final(self)@.queues == old(self)@.queues.update(
                priority as int,
                remove_all(old(self)@.queues[priority as int], task_id),
            ),
            remove_all(old(self)@.queues[priority as int], task_id).len() == 0
                ==> is_bitmap_with_clear(old(self)@.bitmap, final(self)@.bitmap, priority as u32),
            remove_all(old(self)@.queues[priority as int], task_id).len() != 0
                ==> final(self)@.bitmap == old(self)@.bitmap,
    {
        let ghost v0 = self@;
        let ghost s0 = v0.queues[priority as int];
        let mut q = self.queues.remove(priority);
        let mut rebuilt = TaskQueue::new();
        let n = q.len();
        let mut i: usize = 0;
        while i < n
            invariant
                n == s0.len(),
                n <= QUEUE_LEN,
                i <= n,
                task_queue_elems(q) == s0.subrange(i as int, n as int),
                task_queue_elems(rebuilt) == remove_all(s0.subrange(0, i as int), task_id),
                task_queue_elems(rebuilt).len() <= i,
            decreases n - i,
        {
            let ghost pre = task_queue_elems(q);
            let x = match q.pop_front() {
                Some(x) => x,
                None => {
                    proof {
                        assert(false);
                    }
                    0
                },
            };
            if x != task_id {
                let pushed = rebuilt.push_back(x);
                proof {
                    assert(pushed);
                }
            }
            proof {
                assert(task_queue_elems(q) =~= s0.subrange(i + 1, n as int));
                lemma_remove_all_snoc(s0.subrange(0, i as int), x, task_id);
                assert(s0.subrange(0, i as int).push(x) =~= s0.subrange(0, i + 1));
            }
            i = i + 1;
        }
        proof {
            assert(s0.subrange(0, n as int) =~= s0);
        }
        let now_empty = rebuilt.len() == 0;
        self.queues.insert(priority, rebuilt);
        proof {
            assert(self@.queues =~= v0.queues.update(
                priority as int,
                remove_all(s0, task_id),
            ));
        }
        if now_empty {
            self.bitmap = self.bitmap & !(1u32 << (priority as u32));
            proof {
                assert forall|qb: u32| qb < 32 implies (#[trigger] bit_set(self.bitmap, qb) <==> (
                    bit_set(v0.bitmap, qb) && qb != priority as u32
                )) by {
                    lemma_bit_clear(v0.bitmap, priority as u32, qb);
                }
                assert(is_bitmap_with_clear(v0.bitmap, self.bitmap, priority as u32));
            }
        }
        proof {
            if old(self).wf() {
                assert(self@.queues[priority as int].len() != 0 ==> !now_empty);
                assert(!now_empty ==> s0.len() != 0) by {
                    lemma_remove_all_len(s0, task_id);
                }
                Self::lemma_wf_single_change(*old(self), *self, priority as u32);
            }
        }
    }

    /// The coupling invariant survives a change that touches only queue `p`
    /// and its bit.
    proof fn lemma_wf_single_change(pre: ReadySet, post: ReadySet, p: u32)
        requires
            pre.wf(),
            p <= MAX_PRIORITY,
            post@.queues.len() == pre@.queues.len(),
            forall|q: int| 0 <= q < pre@.queues.len() && q != p ==> post@.queues[q]
                == pre@.queues[q],
            forall|q: u32|
                q < 32 && q != p ==> (bit_set(post@.bitmap, q) <==> bit_set(pre@.bitmap, q)),
            (bit_set(post@.bitmap, p) <==> post@.queues[p as int].len() != 0),
        ensures
            post.wf(),
    {
        assert forall|q: u32| q <= MAX_PRIORITY implies (bit_set(post@.bitmap, q)
            <==> #[trigger] post@.queues[q as int].len() != 0) by {
            if q != p {
                assert(post@.queues[q as int] == pre@.queues[q as int]);
                assert(bit_set(pre@.bitmap, q) <==> pre@.queues[q as int].len() != 0);
            }
        }
        assert forall|q: u32| MAX_PRIORITY < q < 32 implies !bit_set(post@.bitmap, q) by {
            assert(!bit_set(pre@.bitmap, q));
        }
    }

    /// The bit index of the most significant set bit of the bitmap: the
    /// highest priority at which a task is ready.
    pub fn highest_priority(&self) -> (p: usize)
        requires
            self@.bitmap != 0,
        ensures
            p < 32,
            bit_set(self@.bitmap, p as u32),
            forall|q: u32| p < q < 32 ==> !bit_set(self@.bitmap, q),
    {
        let lz = self.bitmap.leading_zeros();
        proof {
            vstd::std_specs::bits::axiom_u32_leading_zeros(self.bitmap);
        }
        let p = (31 - lz) as usize;
        proof {
            let m = self@.bitmap;
            let lzs = vstd::std_specs::bits::u32_leading_zeros(m);
            assert((m >> ((31 - lzs) as u32)) & 1u32 != 0u32);
            lemma_bit_probe(m, (31 - lzs) as u32);
            assert forall|q: u32| p < q < 32 implies !bit_set(m, q) by {
                assert(32 - lzs <= q < 32);
                assert((m >> q) & 1u32 == 0u32);
            }
        }
        p
    }
}

/// Appending one element then filtering equals filtering then conditionally
/// appending.
pub proof fn lemma_remove_all_snoc(s: Seq<usize>, x: usize, id: usize)
    ensures
        remove_all(s.push(x), id) == if x == id {
            remove_all(s, id)
        } else {
            remove_all(s, id).push(x)
        },
    decreases s.len(),
{
    let t = s.push(x);
    if s.len() == 0 {
        assert(t.len() == 1);
        assert(t[0] == x);
        assert(t.drop_first() =~= Seq::<usize>::empty());
        assert(remove_all(Seq::<usize>::empty(), id) == Seq::<usize>::empty());
        assert(remove_all(s, id) == Seq::<usize>::empty());
        if x == id {
            assert(remove_all(t, id) == remove_all(t.drop_first(), id));
        } else {
            assert(remove_all(t, id) == seq![x] + remove_all(t.drop_first(), id));
            assert(seq![x] + Seq::<usize>::empty() =~= remove_all(s, id).push(x));
        }
    } else {
        assert(t[0] == s[0]);
        assert(t.drop_first() =~= s.drop_first().push(x));
        lemma_remove_all_snoc(s.drop_first(), x, id);
        if s[0] == id {
            assert(remove_all(t, id) == remove_all(t.drop_first(), id));
            assert(remove_all(s, id) == remove_all(s.drop_first(), id));
        } else {
            assert(remove_all(t, id) == seq![s[0]] + remove_all(t.drop_first(), id));
            assert(remove_all(s, id) == seq![s[0]] + remove_all(s.drop_first(), id));
            if x != id {
                assert(seq![s[0]] + remove_all(s.drop_first(), id).push(x) =~= (seq![s[0]]
                    + remove_all(s.drop_first(), id)).push(x));
            }
        }
    }
}

} // verus!
