use vstd::prelude::*;

use crate::policy::{Order, Preference};
use crate::state::{
    admit_readers, next_writer_index, lemma_remove_increasing,
    exclusive, lemma_read_keeps_wf, lemma_read_release_keeps_wf, lemma_write_keeps_wf,
    lemma_write_release_keeps_wf, no_vain_wait,
    after_read, after_read_release, after_write, after_write_release, grant_writer, initial,
    next_writer, read_release_wakes_writer, reader_left, reader_must_wait, state_wf,
    tickets_wf, write_release_wakes_readers, write_release_wakes_writer, writer_left,
    writer_must_wait, LockState,
};

verus! {

/// A new lock is well formed, whatever its preference and order.
pub proof fn lemma_initial_wf(pref: Preference, order: Order)
    ensures
        state_wf(initial(pref, order)),
{
}

/// Mutual exclusion: in a well-formed lock a writer never holds the lock
/// together with a reader (and, the active writer being one ticket, never
/// together with another writer).
pub proof fn lemma_mutual_exclusion(s: LockState)
    requires
        state_wf(s),
    ensures
        s.writer is Some ==> s.readers.len() == 0,
{
}

/// Nobody waits while the lock is free: when no reader and no writer holds
/// a well-formed lock, no reader and no writer waits for it.
pub proof fn lemma_free_lock_has_no_waiters(s: LockState)
    requires
        state_wf(s),
        s.writer is None,
        s.readers.len() == 0,
    ensures
        s.waiting_readers.len() == 0,
        s.waiting_writers.len() == 0,
{
}

/// A read that gets the lock at once, followed by its release, leaves the
/// lock as it was but for the ticket counter, and wakes nobody.
pub proof fn lemma_read_then_release(s: LockState)
    requires
        state_wf(s),
        s.next_ticket < u64::MAX,
        !reader_must_wait(s),
    ensures
        !read_release_wakes_writer(after_read(s), s.next_ticket as u64),
        after_read_release(after_read(s), s.next_ticket as u64) == (LockState {
            next_ticket: s.next_ticket + 1,
            ..s
        }),
{
    let t = s.next_ticket as u64;
    let s1 = after_read(s);
    let i = s.readers.len() as int;
    assert(s1.readers[i] == t);
    assert(s1.readers.index_of(t) == i) by {
        assert(s1.readers.contains(t));
        let j = s1.readers.index_of(t);
        if j != i {
            assert(s.readers[j] < s.next_ticket);
        }
    }
    assert(s1.readers.remove(i) =~= s.readers);
    assert(reader_left(s1, t) == (LockState { next_ticket: s.next_ticket + 1, ..s }));
}

/// A write that gets the lock at once, followed by its release, leaves the
/// lock as it was but for the ticket counter, and wakes nobody.
pub proof fn lemma_write_then_release(s: LockState)
    requires
        state_wf(s),
        s.next_ticket < u64::MAX,
        !writer_must_wait(s),
    ensures
        !write_release_wakes_writer(after_write(s)),
        !write_release_wakes_readers(after_write(s)),
        after_write_release(after_write(s)) == (LockState { next_ticket: s.next_ticket + 1, ..s }),
{
    let s1 = after_write(s);
    assert(writer_left(s1) == (LockState { next_ticket: s.next_ticket + 1, ..s }));
}

/// Under FIFO the writer that a release wakes is the one that has waited
/// longest (its ticket is the smallest of the waiting writers); under LIFO it
/// is the one that came last.
pub proof fn lemma_woken_writer_by_order(s: LockState)
    requires
        tickets_wf(s),
        s.waiting_writers.len() > 0,
    ensures
        s.order == Order::Fifo ==> forall|i: int|
            0 <= i < s.waiting_writers.len() ==> next_writer(s) <= #[trigger] s.waiting_writers[i],
        s.order == Order::Lifo ==> forall|i: int|
            0 <= i < s.waiting_writers.len() ==> #[trigger] s.waiting_writers[i] <= next_writer(s),
{
}

/// A later request gets a larger ticket: each request takes the counter and
/// raises it by one.
pub proof fn lemma_tickets_rise(s: LockState)
    requires
        state_wf(s),
        s.next_ticket < u64::MAX,
    ensures
        after_read(s).next_ticket == s.next_ticket + 1,
        after_write(s).next_ticket == s.next_ticket + 1,
{
}

/// A release that wakes a writer has already handed it the lock, and the
/// woken writer no longer waits.
pub proof fn lemma_woken_writer_holds_lock(s: LockState, t: u64)
    requires
        state_wf(s),
    ensures
        s.writer is Some && write_release_wakes_writer(s) ==> {
            &&& after_write_release(s).writer == Some(next_writer(s))
            &&& !after_write_release(s).waiting_writers.contains(next_writer(s))
        },
        s.readers.contains(t) && read_release_wakes_writer(s, t) ==> {
            &&& after_read_release(s, t).writer == Some(next_writer(s))
            &&& !after_read_release(s, t).waiting_writers.contains(next_writer(s))
        },
{
    if s.writer is Some && write_release_wakes_writer(s) {
        lemma_granted_writer_leaves_queue(writer_left(s));
    }
    if s.readers.contains(t) && read_release_wakes_writer(s, t) {
        lemma_granted_writer_leaves_queue(reader_left(s, t));
    }
}

proof fn lemma_granted_writer_leaves_queue(s: LockState)
    requires
        tickets_wf(s),
        s.waiting_writers.len() > 0,
    ensures
        !grant_writer(s).waiting_writers.contains(next_writer(s)),
{
    crate::state::lemma_remove_increasing(
        s.waiting_writers,
        crate::state::next_writer_index(s),
    );
}

/// A release that lets readers in lets in every waiting reader, and none
/// waits afterwards.
pub proof fn lemma_admitted_readers_hold_lock(s: LockState)
    requires
        state_wf(s),
        s.writer is Some,
        !write_release_wakes_writer(s),
        write_release_wakes_readers(s),
    ensures
        after_write_release(s).readers == s.waiting_readers,
        after_write_release(s).waiting_readers.len() == 0,
        after_write_release(s).writer is None,
{
    assert(s.readers.len() == 0);
    assert(after_write_release(s).readers =~= s.waiting_readers);
}

/// Readers preferred, a reader never waits while no writer holds the lock;
/// writers preferred, a reader also waits behind a waiting writer.
pub proof fn lemma_reader_waits_only_for_writers(s: LockState)
    ensures
        s.pref == Preference::Reader ==> (reader_must_wait(s) <==> s.writer is Some),
        s.pref == Preference::Writer ==> (reader_must_wait(s) <==> (s.writer is Some
            || s.waiting_writers.len() > 0)),
{
}


/// One thing that can happen to a lock.
pub enum Event {
    /// A read request.
    Read,
    /// A write request.
    Write,
    /// The release of the reader with this ticket.
    ReleaseRead(u64),
    /// The release of the active writer.
    ReleaseWrite,
}

/// The bookkeeping after event `e`; an event that cannot happen (a release by
/// a ticket that holds nothing, a request once tickets run out) changes
/// nothing.
pub open spec fn step(s: LockState, e: Event) -> LockState {
    match e {
        Event::Read => if s.next_ticket < u64::MAX {
            after_read(s)
        } else {
            s
        },
        Event::Write => if s.next_ticket < u64::MAX {
            after_write(s)
        } else {
            s
        },
        Event::ReleaseRead(t) => if s.readers.contains(t) {
            after_read_release(s, t)
        } else {
            s
        },
        Event::ReleaseWrite => if s.writer is Some {
            after_write_release(s)
        } else {
            s
        },
    }
}

/// The bookkeeping after the events `es`, one after another.
pub open spec fn run(s: LockState, es: Seq<Event>) -> LockState
    decreases es.len(),
{
    if es.len() == 0 {
        s
    } else {
        step(run(s, es.drop_last()), es.last())
    }
}

/// Whatever requests and releases happen to a new lock, and in whatever
/// order, a writer never holds it together with a reader, and nobody waits
/// while it is free.
pub proof fn lemma_every_run_is_safe(pref: Preference, order: Order, es: Seq<Event>)
    ensures
        state_wf(run(initial(pref, order), es)),
        exclusive(run(initial(pref, order), es)),
        no_vain_wait(run(initial(pref, order), es)),
    decreases es.len(),
{
    if es.len() > 0 {
        lemma_every_run_is_safe(pref, order, es.drop_last());
        let s = run(initial(pref, order), es.drop_last());
        match es.last() {
            Event::Read => if s.next_ticket < u64::MAX {
                lemma_read_keeps_wf(s);
            },
            Event::Write => if s.next_ticket < u64::MAX {
                lemma_write_keeps_wf(s);
            },
            Event::ReleaseRead(t) => if s.readers.contains(t) {
                lemma_read_release_keeps_wf(s, t);
            },
            Event::ReleaseWrite => if s.writer is Some {
                lemma_write_release_keeps_wf(s);
            },
        }
    }
}


/// Removing the element at `i` keeps every other element.
proof fn lemma_remove_keeps_others(q: Seq<u64>, i: int, x: u64)
    requires
        0 <= i < q.len(),
        q.contains(x),
        x != q[i],
    ensures
        q.remove(i).contains(x),
{
    q.remove_ensures(i);
    let j = choose|j: int| 0 <= j < q.len() && q[j] == x;
    if j < i {
        assert(q.remove(i)[j] == x);
    } else {
        assert(q.remove(i)[j - 1] == x);
    }
}

/// Removing an element adds none.
proof fn lemma_remove_adds_nothing(q: Seq<u64>, i: int, x: u64)
    requires
        0 <= i < q.len(),
        q.remove(i).contains(x),
    ensures
        q.contains(x),
{
    q.remove_ensures(i);
    let j = choose|j: int| 0 <= j < q.remove(i).len() && q.remove(i)[j] == x;
    if j < i {
        assert(q[j] == x);
    } else {
        assert(q[j + 1] == x);
    }
}

/// A read request is recorded: it joins the readers that hold the lock when
/// it need not wait, and else the end of the queue of waiting readers; no
/// other reader or writer is touched.
pub proof fn lemma_read_request_recorded(s: LockState)
    requires
        state_wf(s),
        s.next_ticket < u64::MAX,
    ensures
        reader_must_wait(s) ==> after_read(s).waiting_readers == s.waiting_readers.push(
            s.next_ticket as u64,
        ) && after_read(s).readers == s.readers,
        !reader_must_wait(s) ==> after_read(s).readers == s.readers.push(s.next_ticket as u64)
            && after_read(s).waiting_readers == s.waiting_readers,
        after_read(s).writer == s.writer,
        after_read(s).waiting_writers == s.waiting_writers,
        after_read(s).readers.contains(s.next_ticket as u64) || after_read(
            s,
        ).waiting_readers.contains(s.next_ticket as u64),
{
    let t = s.next_ticket as u64;
    if reader_must_wait(s) {
        assert(after_read(s).waiting_readers[s.waiting_readers.len() as int] == t);
    } else {
        assert(after_read(s).readers[s.readers.len() as int] == t);
    }
}

/// A write request is recorded: it holds the lock when it need not wait, and
/// else joins the end of the queue of waiting writers; no other reader or
/// writer is touched.
pub proof fn lemma_write_request_recorded(s: LockState)
    requires
        state_wf(s),
        s.next_ticket < u64::MAX,
    ensures
        writer_must_wait(s) ==> after_write(s).waiting_writers == s.waiting_writers.push(
            s.next_ticket as u64,
        ) && after_write(s).writer == s.writer,
        !writer_must_wait(s) ==> after_write(s).writer == Some(s.next_ticket as u64)
            && after_write(s).waiting_writers == s.waiting_writers,
        after_write(s).readers == s.readers,
        after_write(s).waiting_readers == s.waiting_readers,
        after_write(s).writer == Some(s.next_ticket as u64) || after_write(
            s,
        ).waiting_writers.contains(s.next_ticket as u64),
{
    let t = s.next_ticket as u64;
    if writer_must_wait(s) {
        assert(after_write(s).waiting_writers[s.waiting_writers.len() as int] == t);
    }
}

/// No request is lost by the release of reader `t`: every other active reader
/// still holds the lock, every waiting reader still waits, and every waiting
/// writer still waits or now holds the lock; a writer that is handed the lock
/// is the only one that leaves the queue; and nobody gains the lock who did
/// not hold it or wait for it.
pub proof fn lemma_read_release_loses_nothing(s: LockState, t: u64)
    requires
        state_wf(s),
        s.readers.contains(t),
    ensures
        forall|x: u64| #[trigger]
            s.readers.contains(x) && x != t ==> after_read_release(s, t).readers.contains(x),
        !after_read_release(s, t).readers.contains(t),
        after_read_release(s, t).waiting_readers == s.waiting_readers,
        forall|x: u64| #[trigger]
            s.waiting_writers.contains(x) ==> after_read_release(s, t).waiting_writers.contains(x)
                || after_read_release(s, t).writer == Some(x),
        read_release_wakes_writer(s, t) ==> after_read_release(s, t).waiting_writers
            == s.waiting_writers.remove(next_writer_index(s)) && after_read_release(s, t).writer
            == Some(s.waiting_writers[next_writer_index(s)]),
        !read_release_wakes_writer(s, t) ==> after_read_release(s, t).waiting_writers
            == s.waiting_writers && after_read_release(s, t).writer == s.writer,
        forall|x: u64| #[trigger]
            after_read_release(s, t).readers.contains(x) ==> s.readers.contains(x),
        forall|x: u64| #[trigger]
            after_read_release(s, t).waiting_writers.contains(x) ==> s.waiting_writers.contains(x),
{
    let i = s.readers.index_of(t);
    let s1 = reader_left(s, t);
    lemma_remove_increasing(s.readers, i);
    assert(s.readers[i] == t);
    assert forall|x: u64| #[trigger] s.readers.contains(x) && x != t implies s1.readers.contains(
        x,
    ) by {
        lemma_remove_keeps_others(s.readers, i, x);
    }
    assert forall|x: u64| #[trigger] s1.readers.contains(x) implies s.readers.contains(x) by {
        lemma_remove_adds_nothing(s.readers, i, x);
    }
    if read_release_wakes_writer(s, t) {
        let k = next_writer_index(s);
        assert forall|x: u64| #[trigger] s.waiting_writers.contains(x) implies after_read_release(
            s,
            t,
        ).waiting_writers.contains(x) || after_read_release(s, t).writer == Some(x) by {
            if x != s.waiting_writers[k] {
                lemma_remove_keeps_others(s.waiting_writers, k, x);
            }
        }
        assert forall|x: u64| #[trigger]
            after_read_release(s, t).waiting_writers.contains(x) implies s.waiting_writers.contains(
            x,
        ) by {
            lemma_remove_adds_nothing(s.waiting_writers, k, x);
        }
    }
}

/// No request is lost by the release of the writer: every waiting reader
/// still waits or now holds the lock, every waiting writer still waits or now
/// holds the lock; when a writer is handed the lock it is the only one that
/// leaves its queue and the waiting readers stay as they were; when readers
/// are let in, all of them are, and the waiting writers stay as they were;
/// and nobody gains the lock who did not wait for it.
pub proof fn lemma_write_release_loses_nothing(s: LockState)
    requires
        state_wf(s),
        s.writer is Some,
    ensures
        forall|x: u64| #[trigger]
            s.waiting_readers.contains(x) ==> after_write_release(s).waiting_readers.contains(x)
                || after_write_release(s).readers.contains(x),
        forall|x: u64| #[trigger]
            s.waiting_writers.contains(x) ==> after_write_release(s).waiting_writers.contains(x)
                || after_write_release(s).writer == Some(x),
        write_release_wakes_writer(s) ==> after_write_release(s).waiting_readers
            == s.waiting_readers && after_write_release(s).waiting_writers
            == s.waiting_writers.remove(next_writer_index(s)) && after_write_release(s).writer
            == Some(s.waiting_writers[next_writer_index(s)]) && after_write_release(s).readers
            == s.readers,
        !write_release_wakes_writer(s) ==> after_write_release(s).waiting_writers
            == s.waiting_writers && after_write_release(s).writer is None,
        !write_release_wakes_writer(s) && write_release_wakes_readers(s) ==> after_write_release(
            s,
        ).readers == s.waiting_readers && after_write_release(s).waiting_readers.len() == 0,
        !write_release_wakes_writer(s) && !write_release_wakes_readers(s) ==> after_write_release(
            s,
        ).readers.len() == 0 && after_write_release(s).waiting_readers == s.waiting_readers,
        forall|x: u64| #[trigger]
            after_write_release(s).readers.contains(x) ==> s.waiting_readers.contains(x),
        forall|x: u64| #[trigger]
            after_write_release(s).waiting_writers.contains(x) ==> s.waiting_writers.contains(x),
{
    let s1 = writer_left(s);
    assert(s.readers.len() == 0);
    if write_release_wakes_writer(s) {
        let k = next_writer_index(s);
        assert forall|x: u64| #[trigger] s.waiting_writers.contains(x) implies after_write_release(
            s,
        ).waiting_writers.contains(x) || after_write_release(s).writer == Some(x) by {
            if x != s.waiting_writers[k] {
                lemma_remove_keeps_others(s.waiting_writers, k, x);
            }
        }
        assert forall|x: u64| #[trigger]
            after_write_release(s).waiting_writers.contains(x) implies s.waiting_writers.contains(
            x,
        ) by {
            lemma_remove_adds_nothing(s.waiting_writers, k, x);
        }
    } else if write_release_wakes_readers(s) {
        assert(admit_readers(s1).readers =~= s.waiting_readers);
    }
}

} // verus!
