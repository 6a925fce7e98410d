use vstd::prelude::*;

use crate::policy::{Order, Preference};

verus! {

/// The bookkeeping of a reader-writer lock, as mathematics.
///
/// Every request for the lock is given a ticket, a number that no other request
/// has.  A ticket stands in exactly one of four places: among the active
/// readers, among the waiting readers, as the active writer, or among the
/// waiting writers.
pub struct LockState {
    pub pref: Preference,
    pub order: Order,
    /// Tickets of the readers that hold the lock.
    pub readers: Seq<u64>,
    /// Tickets of the readers that wait, in the order they arrived.
    pub waiting_readers: Seq<u64>,
    /// Ticket of the writer that holds the lock, if any.
    pub writer: Option<u64>,
    /// Tickets of the writers that wait, in the order they arrived.
    pub waiting_writers: Seq<u64>,
    /// The ticket that the next request receives.
    pub next_ticket: nat,
}

/// The numbers in `q` rise strictly from first to last.
pub open spec fn increasing(q: Seq<u64>) -> bool {
    forall|i: int, j: int| 0 <= i < j < q.len() ==> q[i] < q[j]
}

/// Every number in `q` is below `n`.
pub open spec fn all_below(q: Seq<u64>, n: nat) -> bool {
    forall|i: int| 0 <= i < q.len() ==> q[i] < n
}

/// No number stands in both `a` and `b`.
pub open spec fn apart(a: Seq<u64>, b: Seq<u64>) -> bool {
    forall|i: int, j: int| 0 <= i < a.len() && 0 <= j < b.len() ==> a[i] != b[j]
}

/// The ticket `t` is not in `q`.
pub open spec fn absent(q: Seq<u64>, t: u64) -> bool {
    forall|i: int| 0 <= i < q.len() ==> q[i] != t
}

/// Tickets are issued in rising order, each stands in one place, and the
/// queues keep arrival order.
pub open spec fn tickets_wf(s: LockState) -> bool {
    &&& s.next_ticket <= u64::MAX
    &&& increasing(s.readers)
    &&& increasing(s.waiting_readers)
    &&& increasing(s.waiting_writers)
    &&& all_below(s.readers, s.next_ticket)
    &&& all_below(s.waiting_readers, s.next_ticket)
    &&& all_below(s.waiting_writers, s.next_ticket)
    &&& (s.writer matches Some(w) ==> {
        &&& w < s.next_ticket
        &&& absent(s.readers, w)
        &&& absent(s.waiting_readers, w)
        &&& absent(s.waiting_writers, w)
    })
    &&& apart(s.readers, s.waiting_readers)
    &&& apart(s.readers, s.waiting_writers)
    &&& apart(s.waiting_readers, s.waiting_writers)
}

/// Mutual exclusion: a writer never holds the lock together with a reader.
pub open spec fn exclusive(s: LockState) -> bool {
    s.writer is Some ==> s.readers.len() == 0
}

/// Nobody waits in vain: a waiting writer waits for an active reader or
/// writer, and a waiting reader waits for an active writer or (writers
/// preferred) for a waiting writer.
pub open spec fn no_vain_wait(s: LockState) -> bool {
    &&& (s.waiting_writers.len() > 0 ==> s.writer is Some || s.readers.len() > 0)
    &&& (s.waiting_readers.len() > 0 ==> s.writer is Some || (s.pref == Preference::Writer
        && s.waiting_writers.len() > 0))
}

/// The invariant of the lock's bookkeeping.
pub open spec fn state_wf(s: LockState) -> bool {
    &&& tickets_wf(s)
    &&& exclusive(s)
    &&& no_vain_wait(s)
}

/// The empty bookkeeping of a new lock.
pub open spec fn initial(pref: Preference, order: Order) -> LockState {
    LockState {
        pref,
        order,
        readers: Seq::empty(),
        waiting_readers: Seq::empty(),
        writer: None,
        waiting_writers: Seq::empty(),
        next_ticket: 0,
    }
}

/// Readers-preferred: a reader waits when a writer is active.
/// Writers-preferred: a reader waits when a writer is active or waiting.
pub open spec fn reader_must_wait(s: LockState) -> bool {
    match s.pref {
        Preference::Reader => s.writer is Some,
        Preference::Writer => s.writer is Some || s.waiting_writers.len() > 0,
    }
}

/// Readers-preferred: a writer waits when a reader is active or waiting, or a
/// writer is active.  Writers-preferred: a writer waits when a reader or a
/// writer is active.
pub open spec fn writer_must_wait(s: LockState) -> bool {
    match s.pref {
        Preference::Reader => s.readers.len() > 0 || s.waiting_readers.len() > 0
            || s.writer is Some,
        Preference::Writer => s.readers.len() > 0 || s.writer is Some,
    }
}

/// The bookkeeping after a read request, which takes ticket `next_ticket`.
pub open spec fn after_read(s: LockState) -> LockState {
    let t = s.next_ticket as u64;
    if reader_must_wait(s) {
        LockState { waiting_readers: s.waiting_readers.push(t), next_ticket: s.next_ticket + 1, ..s }
    } else {
        LockState { readers: s.readers.push(t), next_ticket: s.next_ticket + 1, ..s }
    }
}

/// The bookkeeping after a write request, which takes ticket `next_ticket`.
pub open spec fn after_write(s: LockState) -> LockState {
    let t = s.next_ticket as u64;
    if writer_must_wait(s) {
        LockState { waiting_writers: s.waiting_writers.push(t), next_ticket: s.next_ticket + 1, ..s }
    } else {
        LockState { writer: Some(t), next_ticket: s.next_ticket + 1, ..s }
    }
}

/// Where in the queue of waiting writers the next one to run stands:
/// the first under FIFO, the last under LIFO.
pub open spec fn next_writer_index(s: LockState) -> int {
    match s.order {
        Order::Fifo => 0,
        Order::Lifo => s.waiting_writers.len() - 1,
    }
}

/// The waiting writer that runs next.
pub open spec fn next_writer(s: LockState) -> u64 {
    s.waiting_writers[next_writer_index(s)]
}

/// Hands the lock to the waiting writer that runs next.
pub open spec fn grant_writer(s: LockState) -> LockState {
    LockState {
        writer: Some(next_writer(s)),
        waiting_writers: s.waiting_writers.remove(next_writer_index(s)),
        ..s
    }
}

/// Lets every waiting reader in.
pub open spec fn admit_readers(s: LockState) -> LockState {
    LockState { readers: s.readers + s.waiting_readers, waiting_readers: Seq::empty(), ..s }
}

/// The bookkeeping once reader `t` has left, before anyone is woken.
pub open spec fn reader_left(s: LockState, t: u64) -> LockState {
    LockState { readers: s.readers.remove(s.readers.index_of(t)), ..s }
}

/// Whether the departure of reader `t` wakes a waiting writer: when no reader
/// and no writer is active (and, readers preferred, no reader waits) and a
/// writer waits.
pub open spec fn read_release_wakes_writer(s: LockState, t: u64) -> bool {
    let s1 = reader_left(s, t);
    &&& s1.readers.len() == 0
    &&& s1.writer is None
    &&& (s1.pref == Preference::Writer || s1.waiting_readers.len() == 0)
    &&& s1.waiting_writers.len() > 0
}

/// The bookkeeping after reader `t` releases the lock.
pub open spec fn after_read_release(s: LockState, t: u64) -> LockState {
    if read_release_wakes_writer(s, t) {
        grant_writer(reader_left(s, t))
    } else {
        reader_left(s, t)
    }
}

/// Whether the departure of the writer wakes a waiting writer.
/// Writers preferred: whenever a writer waits.  Readers preferred: when a
/// writer waits and no reader does.
pub open spec fn write_release_wakes_writer(s: LockState) -> bool {
    match s.pref {
        Preference::Writer => s.waiting_writers.len() > 0,
        Preference::Reader => s.waiting_readers.len() == 0 && s.waiting_writers.len() > 0,
    }
}

/// Whether the departure of the writer lets the waiting readers in.
/// Writers preferred: when readers wait and no writer does.  Readers
/// preferred: whenever a reader waits.
pub open spec fn write_release_wakes_readers(s: LockState) -> bool {
    match s.pref {
        Preference::Writer => s.waiting_writers.len() == 0 && s.waiting_readers.len() > 0,
        Preference::Reader => s.waiting_readers.len() > 0,
    }
}

/// The bookkeeping once the writer has left, before anyone is woken.
pub open spec fn writer_left(s: LockState) -> LockState {
    LockState { writer: None, ..s }
}

/// The bookkeeping after the writer releases the lock.
pub open spec fn after_write_release(s: LockState) -> LockState {
    if write_release_wakes_writer(s) {
        grant_writer(writer_left(s))
    } else if write_release_wakes_readers(s) {
        admit_readers(writer_left(s))
    } else {
        writer_left(s)
    }
}


/// Removing an element from a rising sequence leaves a rising sequence that
/// keeps every property of its elements that the original had, and no longer
/// holds the removed one.
pub proof fn lemma_remove_increasing(q: Seq<u64>, i: int)
    requires
        increasing(q),
        0 <= i < q.len(),
    ensures
        increasing(q.remove(i)),
        q.remove(i).len() == q.len() - 1,
        absent(q.remove(i), q[i]),
        forall|n: nat| all_below(q, n) ==> #[trigger] all_below(q.remove(i), n),
        forall|x: u64| absent(q, x) ==> #[trigger] absent(q.remove(i), x),
        forall|b: Seq<u64>| apart(q, b) ==> #[trigger] apart(q.remove(i), b),
        forall|b: Seq<u64>| apart(b, q) ==> #[trigger] apart(b, q.remove(i)),
{
    q.remove_ensures(i);
    let r = q.remove(i);
    assert forall|k: int| 0 <= k < r.len() implies #[trigger] r[k] == q[if k < i { k } else { k + 1 }] by {
    }
}

/// In a rising sequence that holds `t`, `index_of` finds the one place of `t`.
pub proof fn lemma_index_of_increasing(q: Seq<u64>, t: u64, i: int)
    requires
        increasing(q),
        0 <= i < q.len(),
        q[i] == t,
    ensures
        q.index_of(t) == i,
{
    assert(q.contains(t));
    let j = q.index_of(t);
    assert(0 <= j < q.len() && q[j] == t);
}


/// A read request keeps the bookkeeping well formed.
pub proof fn lemma_read_keeps_wf(s: LockState)
    requires
        state_wf(s),
        s.next_ticket < u64::MAX,
    ensures
        state_wf(after_read(s)),
{
    let t = s.next_ticket as u64;
    let s2 = after_read(s);
    if reader_must_wait(s) {
        assert(s2.waiting_readers == s.waiting_readers.push(t));
        assert forall|i: int, j: int| 0 <= i < j < s2.waiting_readers.len() implies
            s2.waiting_readers[i] < s2.waiting_readers[j] by {
            if j == s.waiting_readers.len() {
                assert(s.waiting_readers[i] < s.next_ticket);
            }
        }
    } else {
        assert(s2.readers == s.readers.push(t));
        assert forall|i: int, j: int| 0 <= i < j < s2.readers.len() implies
            s2.readers[i] < s2.readers[j] by {
            if j == s.readers.len() {
                assert(s.readers[i] < s.next_ticket);
            }
        }
    }
}

/// A write request keeps the bookkeeping well formed.
pub proof fn lemma_write_keeps_wf(s: LockState)
    requires
        state_wf(s),
        s.next_ticket < u64::MAX,
    ensures
        state_wf(after_write(s)),
{
    let t = s.next_ticket as u64;
    let s2 = after_write(s);
    if writer_must_wait(s) {
        assert(s2.waiting_writers == s.waiting_writers.push(t));
        assert forall|i: int, j: int| 0 <= i < j < s2.waiting_writers.len() implies
            s2.waiting_writers[i] < s2.waiting_writers[j] by {
            if j == s.waiting_writers.len() {
                assert(s.waiting_writers[i] < s.next_ticket);
            }
        }
    }
}

/// Handing the lock to the next waiting writer keeps the bookkeeping well
/// formed, when no reader and no writer is active.
pub proof fn lemma_grant_writer_keeps_wf(s: LockState)
    requires
        tickets_wf(s),
        s.readers.len() == 0,
        s.writer is None,
        s.waiting_writers.len() > 0,
        s.pref == Preference::Reader ==> s.waiting_readers.len() == 0,
    ensures
        state_wf(grant_writer(s)),
{
    let i = next_writer_index(s);
    lemma_remove_increasing(s.waiting_writers, i);
    let s2 = grant_writer(s);
    assert(s2.waiting_writers == s.waiting_writers.remove(i));
    assert(apart(s2.readers, s2.waiting_writers));
    assert(apart(s2.waiting_readers, s2.waiting_writers));
    assert(absent(s2.waiting_readers, next_writer(s)));
}

/// Letting the waiting readers in keeps the bookkeeping well formed, when no
/// reader and no writer is active and some reader waits.
pub proof fn lemma_admit_readers_keeps_wf(s: LockState)
    requires
        tickets_wf(s),
        s.readers.len() == 0,
        s.writer is None,
        s.waiting_readers.len() > 0,
    ensures
        state_wf(admit_readers(s)),
{
    let s2 = admit_readers(s);
    assert(s2.readers =~= s.waiting_readers);
}

/// The release of an active reader keeps the bookkeeping well formed.
pub proof fn lemma_read_release_keeps_wf(s: LockState, t: u64)
    requires
        state_wf(s),
        s.readers.contains(t),
    ensures
        state_wf(after_read_release(s, t)),
{
    let i = s.readers.index_of(t);
    lemma_remove_increasing(s.readers, i);
    let s1 = reader_left(s, t);
    assert(s1.readers == s.readers.remove(i));
    assert(tickets_wf(s1));
    if read_release_wakes_writer(s, t) {
        lemma_grant_writer_keeps_wf(s1);
    }
}

/// The release of the active writer keeps the bookkeeping well formed.
pub proof fn lemma_write_release_keeps_wf(s: LockState)
    requires
        state_wf(s),
        s.writer is Some,
    ensures
        state_wf(after_write_release(s)),
{
    let s1 = writer_left(s);
    if write_release_wakes_writer(s) {
        lemma_grant_writer_keeps_wf(s1);
    } else if write_release_wakes_readers(s) {
        lemma_admit_readers_keeps_wf(s1);
    }
}

} // verus!
