use vstd::prelude::*;

use crate::policy::{Order, Preference};
use crate::state::{
    admit_readers, after_read, after_read_release, after_write, after_write_release,
    grant_writer, initial, lemma_index_of_increasing, lemma_read_keeps_wf,
    lemma_read_release_keeps_wf, lemma_write_keeps_wf,
    lemma_write_release_keeps_wf, next_writer, read_release_wakes_writer, reader_must_wait,
    state_wf, tickets_wf, write_release_wakes_readers, write_release_wakes_writer,
    writer_must_wait, LockState,
};

verus! {

/// Proof that the reader with this ticket holds the lock.
pub struct RwLockReadGuard {
    ticket: u64,
}

/// Proof that the writer with this ticket holds the lock.
pub struct RwLockWriteGuard {
    ticket: u64,
}

impl View for RwLockReadGuard {
    type V = u64;

    closed spec fn view(&self) -> u64 {
        self.ticket
    }
}

impl View for RwLockWriteGuard {
    type V = u64;

    closed spec fn view(&self) -> u64 {
        self.ticket
    }
}

impl RwLockReadGuard {
    /// The ticket of the reader that holds this guard.
    pub fn ticket(&self) -> (t: u64)
        ensures
            t == self@,
    {
        self.ticket
    }
}

impl RwLockWriteGuard {
    /// The ticket of the writer that holds this guard.
    pub fn ticket(&self) -> (t: u64)
        ensures
            t == self@,
    {
        self.ticket
    }
}

/// What a read request leads to: the lock at once, or a wait under a ticket.
pub enum ReadStart {
    Granted(RwLockReadGuard),
    Waiting(u64),
}

/// What a write request leads to: the lock at once, or a wait under a ticket.
pub enum WriteStart {
    Granted(RwLockWriteGuard),
    Waiting(u64),
}

/// Whom a release hands the lock to, and who must therefore be woken.
pub enum Wakeup {
    /// Nobody.
    Nobody,
    /// The waiting writer with this ticket.
    Writer(u64),
    /// All the readers that waited, with these tickets.
    Readers(Vec<u64>),
}

/// A reader-writer lock that protects data of type `T`.
///
/// Each method is one step of the lock: a request, a release, or an access to
/// the data under a guard.  A request either takes the lock at once or joins a
/// queue under a ticket; a release hands the lock over to those whom it wakes,
/// so that a woken request finds the lock already its own.
pub struct RwLock<T> {
    data: T,
    pref: Preference,
    order: Order,
    readers: Vec<u64>,
    waiting_readers: Vec<u64>,
    writer: Option<u64>,
    waiting_writers: Vec<u64>,
    next_ticket: u64,
}

impl<T> View for RwLock<T> {
    type V = LockState;

    closed spec fn view(&self) -> LockState {
        LockState {
            pref: self.pref,
            order: self.order,
            readers: self.readers@,
            waiting_readers: self.waiting_readers@,
            writer: self.writer,
            waiting_writers: self.waiting_writers@,
            next_ticket: self.next_ticket as nat,
        }
    }
}

/// The place of `t` in `v`.
fn position(v: &Vec<u64>, t: u64) -> (i: usize)
    requires
        v@.contains(t),
    ensures
        i < v.len(),
        v@[i as int] == t,
{
    let mut i: usize = 0;
    while i < v.len()
        invariant
            i <= v.len(),
            v@.contains(t),
            forall|j: int| 0 <= j < i ==> v@[j] != t,
        decreases v.len() - i,
    {
        if v[i] == t {
            return i;
        }
        i = i + 1;
    }
    i
}

impl<T> RwLock<T> {
    /// The data that the lock protects.
    pub closed spec fn value(&self) -> T {
        self.data
    }

    /// The lock's bookkeeping is consistent.
    pub open spec fn wf(&self) -> bool {
        state_wf(self@)
    }

    /// Constructs a new `RwLock`
    ///
    /// data: the shared object to be protected by this lock
    /// pref: which preference
    /// order: in which order to wake up the threads waiting on this lock
    pub fn new(data: T, pref: Preference, order: Order) -> (lock: RwLock<T>)
        ensures
            lock.wf(),
            lock@ == initial(pref, order),
            lock.value() == data,
    {
        RwLock {
            data,
            pref,
            order,
            readers: Vec::new(),
            waiting_readers: Vec::new(),
            writer: None,
            waiting_writers: Vec::new(),
            next_ticket: 0,
        }
    }

    /// The preference the lock was made with.
    pub fn preference(&self) -> (p: Preference)
        ensures
            p == self@.pref,
    {
        self.pref
    }

    /// The order the lock was made with.
    pub fn order(&self) -> (o: Order)
        ensures
            o == self@.order,
    {
        self.order
    }

    /// The ticket that the next request receives.
    pub fn next_ticket(&self) -> (t: u64)
        ensures
            t == self@.next_ticket,
    {
        self.next_ticket
    }

    /// Whether a reader must wait now under the lock's preference.
    fn reader_must_wait(&self) -> (b: bool)
        ensures
            b == reader_must_wait(self@),
    {
        match self.pref {
            Preference::Reader => self.writer.is_some(),
            Preference::Writer => self.writer.is_some() || self.waiting_writers.len() > 0,
        }
    }

    /// Whether a writer must wait now under the lock's preference.
    fn writer_must_wait(&self) -> (b: bool)
        ensures
            b == writer_must_wait(self@),
    {
        match self.pref {
            Preference::Reader => self.readers.len() > 0 || self.waiting_readers.len() > 0
                || self.writer.is_some(),
            Preference::Writer => self.readers.len() > 0 || self.writer.is_some(),
        }
    }

    /// Requests a read lock.  The reader gets the lock at once unless it must
    /// wait (a writer is active, or, writers preferred, a writer waits); then
    /// it joins the waiting readers under its ticket.
    ///
    /// Always returns Ok(_).
    pub fn read(&mut self) -> (r: Result<ReadStart, ()>)
        requires
            old(self).wf(),
            old(self)@.next_ticket < u64::MAX,
        ensures
            final(self).wf(),
            final(self)@ == after_read(old(self)@),
            final(self).value() == old(self).value(),
            match r {
                Ok(ReadStart::Granted(g)) => !reader_must_wait(old(self)@) && g@
                    == old(self)@.next_ticket,
                Ok(ReadStart::Waiting(t)) => reader_must_wait(old(self)@) && t
                    == old(self)@.next_ticket,
                Err(_) => false,
            },
    {
        proof {
            lemma_read_keeps_wf(self@);
        }
        let t = self.next_ticket;
        let wait = self.reader_must_wait();
        self.next_ticket = t + 1;
        if wait {
            self.waiting_readers.push(t);
            Ok(ReadStart::Waiting(t))
        } else {
            self.readers.push(t);
            Ok(ReadStart::Granted(RwLockReadGuard { ticket: t }))
        }
    }

    /// Requests a write lock.  The writer gets the lock at once unless it must
    /// wait (readers preferred: a reader is active or waiting, or a writer is
    /// active; writers preferred: a reader or a writer is active); then it
    /// joins the waiting writers under its ticket.
    ///
    /// Always returns Ok(_).
    pub fn write(&mut self) -> (r: Result<WriteStart, ()>)
        requires
            old(self).wf(),
            old(self)@.next_ticket < u64::MAX,
        ensures
            final(self).wf(),
            final(self)@ == after_write(old(self)@),
            final(self).value() == old(self).value(),
            match r {
                Ok(WriteStart::Granted(g)) => !writer_must_wait(old(self)@) && g@
                    == old(self)@.next_ticket,
                Ok(WriteStart::Waiting(t)) => writer_must_wait(old(self)@) && t
                    == old(self)@.next_ticket,
                Err(_) => false,
            },
    {
        proof {
            lemma_write_keeps_wf(self@);
        }
        let t = self.next_ticket;
        let wait = self.writer_must_wait();
        self.next_ticket = t + 1;
        if wait {
            self.waiting_writers.push(t);
            Ok(WriteStart::Waiting(t))
        } else {
            self.writer = Some(t);
            Ok(WriteStart::Granted(RwLockWriteGuard { ticket: t }))
        }
    }

    /// The guard of the reader with ticket `t`, once the lock is its own;
    /// `None` while it still waits (or holds no read lock).
    pub fn claim_read(&self, t: u64) -> (g: Option<RwLockReadGuard>)
        ensures
            match g {
                Some(g) => self@.readers.contains(t) && g@ == t,
                None => !self@.readers.contains(t),
            },
    {
        let mut i: usize = 0;
        while i < self.readers.len()
            invariant
                i <= self.readers.len(),
                forall|j: int| 0 <= j < i ==> self.readers@[j] != t,
            decreases self.readers.len() - i,
        {
            if self.readers[i] == t {
                return Some(RwLockReadGuard { ticket: t });
            }
            i = i + 1;
        }
        None
    }

    /// The guard of the writer with ticket `t`, once the lock is its own;
    /// `None` while it still waits (or holds no write lock).
    pub fn claim_write(&self, t: u64) -> (g: Option<RwLockWriteGuard>)
        ensures
            match g {
                Some(g) => self@.writer == Some(t) && g@ == t,
                None => self@.writer != Some(t),
            },
    {
        match self.writer {
            Some(w) => if w == t {
                Some(RwLockWriteGuard { ticket: t })
            } else {
                None
            },
            None => None,
        }
    }

    /// Removes the waiting writer that runs next (the first under FIFO, the
    /// last under LIFO) from the queue and makes it the active writer.
    fn grant_next_writer(&mut self) -> (w: u64)
        requires
            tickets_wf(old(self)@),
            old(self)@.waiting_writers.len() > 0,
        ensures
            final(self)@ == grant_writer(old(self)@),
            w == next_writer(old(self)@),
            final(self).value() == old(self).value(),
    {
        let w = match self.order {
            Order::Fifo => self.waiting_writers.remove(0),
            Order::Lifo => {
                let last = self.waiting_writers.len() - 1;
                self.waiting_writers.remove(last)
            },
        };
        self.writer = Some(w);
        w
    }

    /// Lets every waiting reader in and returns their tickets.
    fn admit_waiting_readers(&mut self) -> (admitted: Vec<u64>)
        requires
            old(self)@.readers.len() == 0,
        ensures
            final(self)@ == admit_readers(old(self)@),
            admitted@ == old(self)@.waiting_readers,
            final(self).value() == old(self).value(),
    {
        let admitted = self.waiting_readers.clone();
        self.readers = self.waiting_readers.clone();
        self.waiting_readers = Vec::new();
        proof {
            assert(self.readers@ =~= old(self)@.readers + old(self)@.waiting_readers);
        }
        admitted
    }

    /// Releases the read lock of `guard`.  When no reader and no writer is
    /// left active (and, readers preferred, no reader waits) and a writer
    /// waits, the lock goes to the next waiting writer, who is woken.
    pub fn release_read(&mut self, guard: RwLockReadGuard) -> (woken: Wakeup)
        requires
            old(self).wf(),
            old(self)@.readers.contains(guard@),
        ensures
            final(self).wf(),
            final(self)@ == after_read_release(old(self)@, guard@),
            final(self).value() == old(self).value(),
            match woken {
                Wakeup::Nobody => !read_release_wakes_writer(old(self)@, guard@),
                Wakeup::Writer(w) => read_release_wakes_writer(old(self)@, guard@) && w
                    == next_writer(old(self)@),
                Wakeup::Readers(_) => false,
            },
    {
        proof {
            lemma_read_release_keeps_wf(self@, guard@);
        }
        let i = position(&self.readers, guard.ticket);
        proof {
            lemma_index_of_increasing(self.readers@, guard@, i as int);
        }
        self.readers.remove(i);
        let wakes = self.readers.len() == 0 && self.writer.is_none() && (self.pref
            == Preference::Writer || self.waiting_readers.len() == 0)
            && self.waiting_writers.len() > 0;
        if wakes {
            let w = self.grant_next_writer();
            Wakeup::Writer(w)
        } else {
            Wakeup::Nobody
        }
    }

    /// Releases the write lock of `guard`.  Writers preferred: a waiting
    /// writer gets the lock if there is one, else all waiting readers do.
    /// Readers preferred: all waiting readers get the lock if there are any,
    /// else a waiting writer does.  Among waiting writers the first runs under
    /// FIFO and the last under LIFO.
    pub fn release_write(&mut self, guard: RwLockWriteGuard) -> (woken: Wakeup)
        requires
            old(self).wf(),
            old(self)@.writer == Some(guard@),
        ensures
            final(self).wf(),
            final(self)@ == after_write_release(old(self)@),
            final(self).value() == old(self).value(),
            match woken {
                Wakeup::Nobody => !write_release_wakes_writer(old(self)@)
                    && !write_release_wakes_readers(old(self)@),
                Wakeup::Writer(w) => write_release_wakes_writer(old(self)@) && w
                    == next_writer(old(self)@),
                Wakeup::Readers(v) => !write_release_wakes_writer(old(self)@)
                    && write_release_wakes_readers(old(self)@) && v@
                    == old(self)@.waiting_readers,
            },
    {
        proof {
            lemma_write_release_keeps_wf(self@);
        }
        self.writer = None;
        let writer_first = match self.pref {
            Preference::Writer => self.waiting_writers.len() > 0,
            Preference::Reader => self.waiting_readers.len() == 0
                && self.waiting_writers.len() > 0,
        };
        if writer_first {
            let w = self.grant_next_writer();
            Wakeup::Writer(w)
        } else if self.waiting_readers.len() > 0 {
            let v = self.admit_waiting_readers();
            Wakeup::Readers(v)
        } else {
            Wakeup::Nobody
        }
    }

    /// The shared object, for a reader that holds the lock.
    pub fn read_value(&self, guard: &RwLockReadGuard) -> (r: &T)
        requires
            self@.readers.contains(guard@),
        ensures
            *r == self.value(),
    {
        &self.data
    }

    /// The shared object, for the writer that holds the lock.
    pub fn write_value(&self, guard: &RwLockWriteGuard) -> (r: &T)
        requires
            self@.writer == Some(guard@),
        ensures
            *r == self.value(),
    {
        &self.data
    }

    /// The shared object, to change, for the writer that holds the lock.
    pub fn value_mut(&mut self, guard: &RwLockWriteGuard) -> (r: &mut T)
        requires
            old(self)@.writer == Some(guard@),
        ensures
            *r == old(self).value(),
            final(self).value() == *final(r),
            final(self)@ == old(self)@,
    {
        &mut self.data
    }
}

} // verus!
