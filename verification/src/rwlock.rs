//! The scheduling state of a reader-writer lock that protects data of type
//! `T`: which threads wait to read or to write, how many hold the lock, who
//! must wait, who is let in, and whom a release wakes up.
//!
//! A waiting thread is known here by a ticket, a number that its caller
//! hands in when the thread arrives; the caller keeps the thread's means of
//! being woken under that ticket. Every step runs while the caller holds the
//! lock's mutex.
use vstd::prelude::*;

use crate::text::same_text;

verus! {

/// Which side the lock favours.
#[derive(PartialEq, Eq, Structural, Clone, Copy, Debug)]
pub enum Preference {
    /// Readers-preferred
    /// * Readers must wait when a writer is active.
    /// * Writers must wait when a reader is active or waiting, or a writer is active.
    Reader,
    /// Writers-preferred:
    /// * Readers must wait when a writer is active or waiting.
    /// * Writer must wait when a reader or writer is active.
    Writer,
}

/// In which order to schedule threads
#[derive(PartialEq, Eq, Structural, Clone, Copy, Debug)]
pub enum Order {
    /// First in first out
    Fifo,
    /// Last in first out
    Lifo,
}


/// The waiting threads, in order of arrival, and the threads that hold the
/// lock. Each ticket is in at most one of the four places, and the counts of
/// holders are those of the tickets that hold the lock.
pub struct Operation {
    waitingToRead: Vec<u64>,
    waitingToWrite: Vec<u64>,
    activeReading: i32,
    activeWriting: i32,
    reading: Ghost<Set<u64>>,
    writing: Ghost<Set<u64>>,
}

/// Provides a reader-writer lock to protect data of type `T`
pub struct RwLock<T> {
    data: T,
    pref: Preference,
    order: Order,
    operation: Operation,
    dataI: i32,
    dataJ: i32,
    dataK: i32,
    dataL: i32,
    type1: bool,
}

/// A read hold on the lock: handed out when a reader is let in, under the
/// reader's ticket, and given back when it leaves.
pub struct RwLockReadGuard {
    ticket: u64,
}

/// A write hold on the lock: handed out when a writer is let in, under the
/// writer's ticket, and given back when it leaves.
pub struct RwLockWriteGuard {
    ticket: u64,
}

/// What brings a thread to a step of `read` or `write`.
pub enum Request {
    /// The thread arrives, and will be woken under this ticket.
    Arrive(u64),
    /// The thread with this ticket, already waiting, was woken up and asks
    /// again.
    Woken(u64),
}

// ---------------------------------------------------------------------------
// Specification
// ---------------------------------------------------------------------------

/// The ticket of the thread that makes a request.
pub open spec fn request_ticket(request: Request) -> u64 {
    match request {
        Request::Arrive(t) => t,
        Request::Woken(t) => t,
    }
}

/// A reader must wait (see `Preference`).
pub open spec fn reader_must_wait(pref: Preference, writers_active: int, writers_waiting: int) -> bool {
    match pref {
        Preference::Reader => writers_active > 0,
        Preference::Writer => writers_active > 0 || writers_waiting > 0,
    }
}

/// A writer must wait (see `Preference`).
pub open spec fn writer_must_wait(
    pref: Preference,
    readers_active: int,
    readers_waiting: int,
    writers_active: int,
) -> bool {
    match pref {
        Preference::Reader => readers_active > 0 || readers_waiting > 0 || writers_active > 0,
        Preference::Writer => writers_active > 0 || readers_active > 0,
    }
}

/// The waiting threads of `q` in the order in which they are woken.
pub open spec fn in_wake_order(q: Seq<u64>, order: Order) -> Seq<u64> {
    match order {
        Order::Fifo => q,
        Order::Lifo => q.reverse(),
    }
}

/// The one waiting thread of the non-empty `q` that is woken alone: the
/// first to arrive under FIFO, the last under LIFO.
pub open spec fn first_to_wake(q: Seq<u64>, order: Order) -> u64 {
    match order {
        Order::Fifo => q[0],
        Order::Lifo => q.last(),
    }
}

/// The queue `q` without the ticket `t` that it holds.
pub open spec fn without(q: Seq<u64>, t: u64) -> Seq<u64> {
    q.remove(q.index_of(t))
}

/// The queue `q` after `request`.
pub open spec fn after_request(q: Seq<u64>, request: Request) -> Seq<u64> {
    match request {
        Request::Arrive(t) => q.push(t),
        Request::Woken(_) => q,
    }
}

/// Whom a release wakes up, in order: under reader preference all waiting
/// readers if there are any, else one writer; under writer preference one
/// writer if there is any, else all waiting readers.
pub open spec fn wake_list(pref: Preference, order: Order, readers: Seq<u64>, writers: Seq<u64>) -> Seq<u64> {
    match pref {
        Preference::Reader => if readers.len() >= 1 {
            in_wake_order(readers, order)
        } else if writers.len() >= 1 {
            seq![first_to_wake(writers, order)]
        } else {
            Seq::empty()
        },
        Preference::Writer => if writers.len() >= 1 {
            seq![first_to_wake(writers, order)]
        } else if readers.len() >= 1 {
            in_wake_order(readers, order)
        } else {
            Seq::empty()
        },
    }
}

/// The counts of threads that hold the lock are consistent: a writer holds
/// it alone.
pub open spec fn exclusive(readers_active: int, writers_active: int) -> bool {
    &&& 0 <= readers_active
    &&& 0 <= writers_active <= 1
    &&& writers_active > 0 ==> readers_active == 0
}

/// The bookkeeping of waiting and holding threads is consistent: a writer
/// holds the lock alone, the counts are those of the holding tickets, no
/// ticket waits twice, and no ticket is in two places.
pub open spec fn consistent(
    readers_waiting: Seq<u64>,
    writers_waiting: Seq<u64>,
    readers_active: int,
    writers_active: int,
    reading: Set<u64>,
    writing: Set<u64>,
) -> bool {
    &&& exclusive(readers_active, writers_active)
    &&& reading.finite() && reading.len() == readers_active
    &&& writing.finite() && writing.len() == writers_active
    &&& readers_waiting.no_duplicates()
    &&& writers_waiting.no_duplicates()
    &&& forall|t: u64|
        #![trigger readers_waiting.contains(t)]
        #![trigger writers_waiting.contains(t)]
        #![trigger reading.contains(t)]
        #![trigger writing.contains(t)]
        {
            &&& readers_waiting.contains(t) ==> !writers_waiting.contains(t) && !reading.contains(t)
                && !writing.contains(t)
            &&& writers_waiting.contains(t) ==> !reading.contains(t) && !writing.contains(t)
            &&& reading.contains(t) ==> !writing.contains(t)
        }
}

impl Operation {
    #[verifier::type_invariant]
    spec fn inv(self) -> bool {
        consistent(
            self.waitingToRead@,
            self.waitingToWrite@,
            self.activeReading as int,
            self.activeWriting as int,
            self.reading@,
            self.writing@,
        )
    }
}

impl<T> RwLock<T> {
    /// The protected data.
    pub closed spec fn value(&self) -> T {
        self.data
    }

    /// The preference the lock was made with.
    pub closed spec fn preference(&self) -> Preference {
        self.pref
    }

    /// The order the lock was made with.
    pub closed spec fn wake_order(&self) -> Order {
        self.order
    }

    /// The tickets of the threads waiting to read, in order of arrival.
    pub closed spec fn readers_waiting(&self) -> Seq<u64> {
        self.operation.waitingToRead@
    }

    /// The tickets of the threads waiting to write, in order of arrival.
    pub closed spec fn writers_waiting(&self) -> Seq<u64> {
        self.operation.waitingToWrite@
    }

    /// How many threads hold the lock for reading.
    pub closed spec fn readers_active(&self) -> int {
        self.operation.activeReading as int
    }

    /// How many threads hold the lock for writing.
    pub closed spec fn writers_active(&self) -> int {
        self.operation.activeWriting as int
    }

    /// The tickets of the threads that hold the lock for reading.
    pub closed spec fn read_holders(&self) -> Set<u64> {
        self.operation.reading@
    }

    /// The tickets of the threads that hold the lock for writing.
    pub closed spec fn write_holders(&self) -> Set<u64> {
        self.operation.writing@
    }

    /// The lock is well formed (see `consistent`); every lock is.
    pub open spec fn wf(&self) -> bool {
        consistent(
            self.readers_waiting(),
            self.writers_waiting(),
            self.readers_active(),
            self.writers_active(),
            self.read_holders(),
            self.write_holders(),
        )
    }

    /// The lock knows the ticket `t`: it waits or holds the lock.
    pub open spec fn knows(&self, t: u64) -> bool {
        ||| self.readers_waiting().contains(t)
        ||| self.writers_waiting().contains(t)
        ||| self.read_holders().contains(t)
        ||| self.write_holders().contains(t)
    }

    /// A reader must wait now.
    pub open spec fn reader_waits(&self) -> bool {
        reader_must_wait(self.preference(), self.writers_active(), self.writers_waiting().len() as int)
    }

    /// A writer must wait now.
    pub open spec fn writer_waits(&self) -> bool {
        writer_must_wait(
            self.preference(),
            self.readers_active(),
            self.readers_waiting().len() as int,
            self.writers_active(),
        )
    }

    /// Whom a release would wake now.
    pub open spec fn to_wake(&self) -> Seq<u64> {
        wake_list(self.preference(), self.wake_order(), self.readers_waiting(), self.writers_waiting())
    }

    /// `self` and `other` agree on everything but what concerns readers.
    pub open spec fn same_but_readers(&self, other: &Self) -> bool {
        &&& self.value() == other.value()
        &&& self.preference() == other.preference()
        &&& self.wake_order() == other.wake_order()
        &&& self.writers_waiting() == other.writers_waiting()
        &&& self.writers_active() == other.writers_active()
        &&& self.write_holders() == other.write_holders()
    }

    /// `self` and `other` agree on everything but what concerns writers.
    pub open spec fn same_but_writers(&self, other: &Self) -> bool {
        &&& self.value() == other.value()
        &&& self.preference() == other.preference()
        &&& self.wake_order() == other.wake_order()
        &&& self.readers_waiting() == other.readers_waiting()
        &&& self.readers_active() == other.readers_active()
        &&& self.read_holders() == other.read_holders()
    }

    /// `request` can be made of `queue`: an arriving ticket is new to the
    /// lock, a woken one waits in `queue`.
    pub open spec fn admissible(&self, queue: Seq<u64>, request: Request) -> bool {
        match request {
            Request::Arrive(t) => !self.knows(t),
            Request::Woken(t) => queue.contains(t),
        }
    }

    /// `post` is `self` after one step of `read` with `request`; `granted`
    /// says whether the reader was let in. A reader that is let in leaves
    /// the queue under its own ticket.
    pub open spec fn read_step(&self, post: &Self, request: Request, granted: bool) -> bool {
        let t = request_ticket(request);
        let waits = self.reader_waits();
        let queued = after_request(self.readers_waiting(), request);
        &&& post.same_but_readers(self)
        &&& granted == !waits
        &&& post.readers_waiting() == if waits {
            queued
        } else {
            without(queued, t)
        }
        &&& post.readers_active() == self.readers_active() + if waits {
            0int
        } else {
            1int
        }
        &&& post.read_holders() == if waits {
            self.read_holders()
        } else {
            self.read_holders().insert(t)
        }
    }

    /// `post` is `self` after one step of `write` with `request`; `granted`
    /// says whether the writer was let in. A writer that is let in leaves
    /// the queue under its own ticket.
    pub open spec fn write_step(&self, post: &Self, request: Request, granted: bool) -> bool {
        let t = request_ticket(request);
        let waits = self.writer_waits();
        let queued = after_request(self.writers_waiting(), request);
        &&& post.same_but_writers(self)
        &&& granted == !waits
        &&& post.writers_waiting() == if waits {
            queued
        } else {
            without(queued, t)
        }
        &&& post.writers_active() == self.writers_active() + if waits {
            0int
        } else {
            1int
        }
        &&& post.write_holders() == if waits {
            self.write_holders()
        } else {
            self.write_holders().insert(t)
        }
    }

    /// `post` is `self` after the reader with ticket `t` left.
    pub open spec fn read_release_step(&self, post: &Self, t: u64) -> bool {
        &&& post.same_but_readers(self)
        &&& post.readers_waiting() == self.readers_waiting()
        &&& post.readers_active() == self.readers_active() - 1
        &&& post.read_holders() == self.read_holders().remove(t)
    }

    /// `post` is `self` after the writer with ticket `t` left.
    pub open spec fn write_release_step(&self, post: &Self, t: u64) -> bool {
        &&& post.same_but_writers(self)
        &&& post.writers_waiting() == self.writers_waiting()
        &&& post.writers_active() == self.writers_active() - 1
        &&& post.write_holders() == self.write_holders().remove(t)
    }
}

impl RwLockReadGuard {
    /// The ticket of the reader that holds the lock.
    pub closed spec fn holder(&self) -> u64 {
        self.ticket
    }
}

impl RwLockWriteGuard {
    /// The ticket of the writer that holds the lock.
    pub closed spec fn holder(&self) -> u64 {
        self.ticket
    }
}

// ---------------------------------------------------------------------------
// Laws
// ---------------------------------------------------------------------------

/// The members of `q` in wake order are those of `q`, each once.
proof fn lemma_in_wake_order(q: Seq<u64>, order: Order)
    requires
        q.no_duplicates(),
    ensures
        in_wake_order(q, order).no_duplicates(),
        in_wake_order(q, order).len() == q.len(),
        forall|t: u64| #[trigger] in_wake_order(q, order).contains(t) <==> q.contains(t),
{
    let rr = q.reverse();
    assert forall|i: int, j: int| 0 <= i < rr.len() && 0 <= j < rr.len() && i != j implies rr[i]
        != rr[j] by {
        assert(rr[i] == q[q.len() - 1 - i]);
        assert(rr[j] == q[q.len() - 1 - j]);
    }
    assert forall|t: u64| rr.contains(t) <==> q.contains(t) by {
        if rr.contains(t) {
            let i = choose|i: int| 0 <= i < rr.len() && rr[i] == t;
            assert(q[q.len() - 1 - i] == t);
        }
        if q.contains(t) {
            let i = choose|i: int| 0 <= i < q.len() && q[i] == t;
            assert(rr[q.len() - 1 - i] == t);
        }
    }
}

/// Law: last-in-first-out wakes the waiting threads in the reverse of the
/// order in which first-in-first-out wakes them.
pub proof fn law_lifo_wakes_in_reverse(pref: Preference, readers: Seq<u64>, writers: Seq<u64>)
    ensures
        wake_list(pref, Order::Lifo, readers, writers) == wake_list(
            pref,
            Order::Fifo,
            readers.reverse(),
            writers.reverse(),
        ),
{
    assert(readers.reverse().len() == readers.len());
    assert(writers.reverse().len() == writers.len());
    if writers.len() >= 1 {
        assert(writers.reverse()[0] == writers.last());
    }
}

/// Law: when a reader must wait. A reader waits only while a writer holds
/// the lock or, under writer preference, a writer waits; however many
/// readers hold the lock, they never make another reader wait.
pub proof fn law_reader_wait_rule<T>(l: RwLock<T>)
    ensures
        l.reader_waits() <==> (l.writers_active() > 0 || (l.preference() == Preference::Writer
            && l.writers_waiting().len() > 0)),
        l.writers_active() == 0 && l.writers_waiting().len() == 0 ==> !l.reader_waits(),
        l.preference() == Preference::Reader && l.writers_active() == 0 ==> !l.reader_waits(),
{
}

/// Law: when a writer must wait. A writer waits while anyone holds the
/// lock, and, under reader preference, while a reader waits; with the lock
/// free and, under reader preference, no reader waiting, it goes in.
pub proof fn law_writer_wait_rule<T>(l: RwLock<T>)
    ensures
        l.writer_waits() <==> (l.writers_active() > 0 || l.readers_active() > 0 || (
        l.preference() == Preference::Reader && l.readers_waiting().len() > 0)),
{
}

/// Law: whom a release wakes, and in which order. Waiting readers are woken
/// all together, in order of arrival under FIFO and in reverse order under
/// LIFO; a waiting writer is woken alone, the one that arrived first under
/// FIFO and the one that arrived last under LIFO. Under reader preference
/// the readers go first, under writer preference the writer; with nobody
/// waiting, nobody is woken.
pub proof fn law_wake_choice(pref: Preference, order: Order, readers: Seq<u64>, writers: Seq<u64>)
    ensures
        ((pref == Preference::Reader && readers.len() > 0) || (pref == Preference::Writer
            && writers.len() == 0 && readers.len() > 0)) ==> wake_list(pref, order, readers, writers)
            == if order == Order::Fifo {
            readers
        } else {
            readers.reverse()
        },
        ((pref == Preference::Reader && readers.len() == 0 && writers.len() > 0) || (pref
            == Preference::Writer && writers.len() > 0)) ==> wake_list(pref, order, readers, writers)
            == seq![
            if order == Order::Fifo {
                writers[0]
            } else {
                writers[writers.len() - 1]
            },
        ],
        readers.len() == 0 && writers.len() == 0 ==> wake_list(pref, order, readers, writers)
            == Seq::<u64>::empty(),
        order == Order::Lifo && readers.len() > 0 && (pref == Preference::Reader
            || writers.len() == 0) ==> forall|j: int|
            0 <= j < readers.len() ==> #[trigger] wake_list(pref, order, readers, writers)[j]
                == readers[readers.len() - 1 - j],
{
}

/// Law: a release wakes each waiting thread at most once, only threads that
/// wait, and someone whenever anyone waits: under reader preference every
/// waiting reader if there is one, under writer preference exactly one
/// writer if there is one.
pub proof fn law_release_wakes_waiters(
    pref: Preference,
    order: Order,
    readers: Seq<u64>,
    writers: Seq<u64>,
)
    requires
        readers.no_duplicates(),
        writers.no_duplicates(),
    ensures
        wake_list(pref, order, readers, writers).no_duplicates(),
        forall|t: u64| #[trigger]
            wake_list(pref, order, readers, writers).contains(t) ==> readers.contains(t)
                || writers.contains(t),
        (readers.len() > 0 || writers.len() > 0) ==> wake_list(
            pref,
            order,
            readers,
            writers,
        ).len() > 0,
        pref == Preference::Reader && readers.len() > 0 ==> forall|t: u64|
            #[trigger] wake_list(pref, order, readers, writers).contains(t) <==> readers.contains(t),
        pref == Preference::Writer && writers.len() > 0 ==> wake_list(
            pref,
            order,
            readers,
            writers,
        ).len() == 1 && writers.contains(wake_list(pref, order, readers, writers)[0]),
{
    lemma_in_wake_order(readers, order);
    if writers.len() > 0 {
        assert(writers.contains(writers[0]));
        assert(writers.contains(writers[writers.len() - 1]));
    }
}

/// Law: when a release leaves the lock free and some thread waits, it wakes
/// at least one thread, and every thread it wakes waits in its queue and
/// may go in as soon as it asks again.
pub proof fn law_release_of_free_lock_wakes_who_may_proceed<T>(l: RwLock<T>)
    requires
        l.wf(),
        l.readers_active() == 0,
        l.writers_active() == 0,
        l.readers_waiting().len() > 0 || l.writers_waiting().len() > 0,
    ensures
        l.to_wake().len() > 0,
        forall|t: u64| #[trigger]
            l.to_wake().contains(t) ==> (l.readers_waiting().contains(t) && !l.reader_waits()) || (
            l.writers_waiting().contains(t) && !l.writer_waits()),
{
    let r = l.readers_waiting();
    let w = l.writers_waiting();
    law_release_wakes_waiters(l.preference(), l.wake_order(), r, w);
    lemma_in_wake_order(r, l.wake_order());
    assert forall|t: u64| #[trigger] l.to_wake().contains(t) implies (r.contains(t)
        && !l.reader_waits()) || (w.contains(t) && !l.writer_waits()) by {
        match l.preference() {
            Preference::Reader => {
                if r.len() < 1 {
                    assert(l.to_wake() == seq![first_to_wake(w, l.wake_order())]);
                    assert(l.to_wake()[0] == t);
                    assert(w.contains(w[0]));
                    assert(w.contains(w[w.len() - 1]));
                }
            },
            Preference::Writer => {
                if w.len() >= 1 {
                    assert(l.to_wake()[0] == t);
                    assert(w.contains(w[0]));
                    assert(w.contains(w[w.len() - 1]));
                }
            },
        }
    }
}

/// Law: a step of `read` keeps every other waiting ticket in its queue, and
/// the ticket of the thread that asks stays queued until that thread is let
/// in; the writers' queue is not touched.
pub proof fn law_read_keeps_waiters_queued<T>(a: RwLock<T>, b: RwLock<T>, request: Request, granted: bool)
    requires
        a.wf(),
        a.admissible(a.readers_waiting(), request),
        a.read_step(&b, request, granted),
    ensures
        forall|x: u64|
            #[trigger] after_request(a.readers_waiting(), request).contains(x) && (x
                != request_ticket(request) || !granted) ==> b.readers_waiting().contains(x),
        !granted ==> b.readers_waiting().contains(request_ticket(request)),
        granted ==> !b.readers_waiting().contains(request_ticket(request)),
        b.writers_waiting() == a.writers_waiting(),
{
    lemma_queue_step(a.readers_waiting(), a.writers_waiting(), a.read_holders(), a.write_holders(), request);
}

/// Law: a step of `write` keeps every other waiting ticket in its queue,
/// and the ticket of the thread that asks stays queued until that thread is
/// let in; the readers' queue is not touched.
pub proof fn law_write_keeps_waiters_queued<T>(a: RwLock<T>, b: RwLock<T>, request: Request, granted: bool)
    requires
        a.wf(),
        a.admissible(a.writers_waiting(), request),
        a.write_step(&b, request, granted),
    ensures
        forall|x: u64|
            #[trigger] after_request(a.writers_waiting(), request).contains(x) && (x
                != request_ticket(request) || !granted) ==> b.writers_waiting().contains(x),
        !granted ==> b.writers_waiting().contains(request_ticket(request)),
        granted ==> !b.writers_waiting().contains(request_ticket(request)),
        b.readers_waiting() == a.readers_waiting(),
{
    lemma_queue_step(a.writers_waiting(), a.readers_waiting(), a.write_holders(), a.read_holders(), request);
}

/// Taking the ticket of a request out of a queue without duplicates keeps
/// the others and takes that one.
proof fn lemma_queue_step(
    q: Seq<u64>,
    other: Seq<u64>,
    mine: Set<u64>,
    theirs: Set<u64>,
    request: Request,
)
    requires
        q.no_duplicates(),
        match request {
            Request::Arrive(t) => !q.contains(t),
            Request::Woken(t) => q.contains(t),
        },
    ensures
        after_request(q, request).no_duplicates(),
        after_request(q, request).contains(request_ticket(request)),
        forall|x: u64|
            #[trigger] after_request(q, request).contains(x) && x != request_ticket(request)
                ==> without(after_request(q, request), request_ticket(request)).contains(x),
        !without(after_request(q, request), request_ticket(request)).contains(
            request_ticket(request),
        ),
        forall|x: u64|
            #[trigger] without(after_request(q, request), request_ticket(request)).contains(x)
                ==> after_request(q, request).contains(x),
        without(after_request(q, request), request_ticket(request)).no_duplicates(),
{
    let t = request_ticket(request);
    let a = after_request(q, request);
    if let Request::Arrive(u) = request {
        assert(a[q.len() as int] == u);
    }
    assert(a.contains(t));
    let i = a.index_of(t);
    let r = without(a, t);
    assert forall|x: u64| #[trigger] a.contains(x) && x != t implies r.contains(x) by {
        let j = choose|j: int| 0 <= j < a.len() && a[j] == x;
        if j < i {
            assert(r[j] == x);
        } else {
            assert(j != i);
            assert(r[j - 1] == x);
        }
    }
    assert forall|x: u64| #[trigger] r.contains(x) implies a.contains(x) by {
        let j = choose|j: int| 0 <= j < r.len() && r[j] == x;
        if j < i {
            assert(a[j] == x);
        } else {
            assert(a[j + 1] == x);
        }
    }
    if r.contains(t) {
        let j = choose|j: int| 0 <= j < r.len() && r[j] == t;
        if j < i {
            assert(a[j] == t);
        } else {
            assert(a[j + 1] == t);
        }
    }
}

/// Law: a reader that is let in and then leaves gives the lock back as it
/// found it, but for the queue of waiting readers, from which its own
/// ticket has gone.
pub proof fn law_read_release_undoes_read<T>(
    a: RwLock<T>,
    b: RwLock<T>,
    c: RwLock<T>,
    request: Request,
)
    requires
        a.wf(),
        a.admissible(a.readers_waiting(), request),
        a.read_step(&b, request, true),
        b.read_release_step(&c, request_ticket(request)),
    ensures
        c.readers_active() == a.readers_active(),
        c.read_holders() == a.read_holders(),
        c.same_but_readers(&a),
        c.readers_waiting() == without(
            after_request(a.readers_waiting(), request),
            request_ticket(request),
        ),
{
    let t = request_ticket(request);
    assert(!a.read_holders().contains(t));
    assert(a.read_holders().insert(t).remove(t) =~= a.read_holders());
}

/// Law: a writer that is let in and then leaves gives the lock back as it
/// found it, with no writer active, but for the queue of waiting writers,
/// from which its own ticket has gone.
pub proof fn law_write_release_undoes_write<T>(
    a: RwLock<T>,
    b: RwLock<T>,
    c: RwLock<T>,
    request: Request,
)
    requires
        a.wf(),
        a.admissible(a.writers_waiting(), request),
        a.write_step(&b, request, true),
        b.write_release_step(&c, request_ticket(request)),
    ensures
        c.writers_active() == a.writers_active(),
        c.writers_active() == 0,
        c.write_holders() == a.write_holders(),
        c.same_but_writers(&a),
        c.writers_waiting() == without(
            after_request(a.writers_waiting(), request),
            request_ticket(request),
        ),
{
    let t = request_ticket(request);
    assert(!a.write_holders().contains(t));
    assert(a.write_holders().insert(t).remove(t) =~= a.write_holders());
}

/// Law: a thread that arrives and must wait joins the end of its queue,
/// behind every thread that waits already; one that was woken and must wait
/// again keeps its place, and the queue is unchanged.
pub proof fn law_waiters_queue_in_arrival_order<T>(a: RwLock<T>, b: RwLock<T>, request: Request, granted: bool)
    ensures
        a.read_step(&b, request, granted) && !granted ==> b.readers_waiting() == match request {
            Request::Arrive(t) => a.readers_waiting().push(t),
            Request::Woken(_) => a.readers_waiting(),
        },
        a.write_step(&b, request, granted) && !granted ==> b.writers_waiting() == match request {
            Request::Arrive(t) => a.writers_waiting().push(t),
            Request::Woken(_) => a.writers_waiting(),
        },
{
}

/// Law: a writer is let in only while nobody holds the lock, and then holds
/// it alone; a reader is let in only while no writer holds it, and no
/// writer holds it afterwards. The ticket of a thread that is let in is
/// among the holders.
pub proof fn law_grant_is_exclusive<T>(a: RwLock<T>, b: RwLock<T>, request: Request)
    requires
        a.wf(),
    ensures
        a.write_step(&b, request, true) ==> a.readers_active() == 0 && a.writers_active() == 0
            && b.writers_active() == 1 && b.readers_active() == 0 && b.write_holders().contains(
            request_ticket(request),
        ),
        a.read_step(&b, request, true) ==> a.writers_active() == 0 && b.writers_active() == 0
            && b.readers_active() == a.readers_active() + 1 && b.read_holders().contains(
            request_ticket(request),
        ),
{
}

/// Law: while a writer waits under writer preference, no reader is let in,
/// and while a reader waits under reader preference, no writer is let in.
pub proof fn law_preferred_side_goes_first<T>(l: RwLock<T>)
    ensures
        l.preference() == Preference::Writer && l.writers_waiting().len() > 0 ==> l.reader_waits(),
        l.preference() == Preference::Reader && l.readers_waiting().len() > 0 ==> l.writer_waits(),
{
}

// ---------------------------------------------------------------------------
// Executable functions
// ---------------------------------------------------------------------------

/// The literal request names, as text.
proof fn lemma_request_names()
    ensures
        "read"@ == seq!['r', 'e', 'a', 'd'],
        "write"@ == seq!['w', 'r', 'i', 't', 'e'],
{
    reveal_strlit("read");
    reveal_strlit("write");
    assert("read"@ =~= seq!['r', 'e', 'a', 'd']);
    assert("write"@ =~= seq!['w', 'r', 'i', 't', 'e']);
}

/// All tickets of `q`, in the order given.
fn tickets_in_order(q: &Vec<u64>, order: Order) -> (r: Vec<u64>)
    ensures
        r@ == in_wake_order(q@, order),
{
    let mut r: Vec<u64> = Vec::new();
    let n = q.len();
    for i in 0..n
        invariant
            n == q.len(),
            r.len() == i,
            forall|j: int|
                0 <= j < i ==> #[trigger] r@[j] == match order {
                    Order::Fifo => q@[j],
                    Order::Lifo => q@[n - 1 - j],
                },
    {
        match order {
            Order::Fifo => r.push(q[i]),
            Order::Lifo => r.push(q[n - 1 - i]),
        }
    }
    assert(r@ =~= in_wake_order(q@, order));
    r
}

/// The position of the ticket `t` in the queue `q`, which holds it once.
fn position(q: &Vec<u64>, t: u64) -> (i: usize)
    requires
        q@.no_duplicates(),
        q@.contains(t),
    ensures
        i < q.len(),
        i == q@.index_of(t),
{
    let mut i: usize = 0;
    while i < q.len()
        invariant
            q@.contains(t),
            q@.no_duplicates(),
            forall|j: int| 0 <= j < i ==> q@[j] != t,
        decreases q.len() - i,
    {
        if q[i] == t {
            let ghost k = q@.index_of(t);
            assert(q@[k] == t);
            return i;
        }
        i = i + 1;
    }
    let ghost k = q@.index_of(t);
    assert(q@[k] == t);
    0
}

impl Operation {
    /// The thread with the new ticket `t` joins the readers' queue.
    fn enqueue_reader(&mut self, t: u64)
        requires
            !old(self).waitingToRead@.contains(t),
            !old(self).waitingToWrite@.contains(t),
            !old(self).reading@.contains(t),
            !old(self).writing@.contains(t),
        ensures
            final(self).waitingToRead@ == old(self).waitingToRead@.push(t),
            final(self).waitingToWrite@ == old(self).waitingToWrite@,
            final(self).activeReading == old(self).activeReading,
            final(self).activeWriting == old(self).activeWriting,
            final(self).reading == old(self).reading,
            final(self).writing == old(self).writing,
    {
        proof {
            use_type_invariant(&*self);
            lemma_queue_step(
                self.waitingToRead@,
                self.waitingToWrite@,
                self.reading@,
                self.writing@,
                Request::Arrive(t),
            );
        }
        let mut readers: Vec<u64> = Vec::new();
        let mut writers: Vec<u64> = Vec::new();
        std::mem::swap(&mut readers, &mut self.waitingToRead);
        std::mem::swap(&mut writers, &mut self.waitingToWrite);
        readers.push(t);
        *self = Operation {
            waitingToRead: readers,
            waitingToWrite: writers,
            activeReading: self.activeReading,
            activeWriting: self.activeWriting,
            reading: Ghost(self.reading@),
            writing: Ghost(self.writing@),
        };
    }

    /// The thread with the new ticket `t` joins the writers' queue.
    fn enqueue_writer(&mut self, t: u64)
        requires
            !old(self).waitingToRead@.contains(t),
            !old(self).waitingToWrite@.contains(t),
            !old(self).reading@.contains(t),
            !old(self).writing@.contains(t),
        ensures
            final(self).waitingToWrite@ == old(self).waitingToWrite@.push(t),
            final(self).waitingToRead@ == old(self).waitingToRead@,
            final(self).activeReading == old(self).activeReading,
            final(self).activeWriting == old(self).activeWriting,
            final(self).reading == old(self).reading,
            final(self).writing == old(self).writing,
    {
        proof {
            use_type_invariant(&*self);
            lemma_queue_step(
                self.waitingToWrite@,
                self.waitingToRead@,
                self.writing@,
                self.reading@,
                Request::Arrive(t),
            );
        }
        let mut readers: Vec<u64> = Vec::new();
        let mut writers: Vec<u64> = Vec::new();
        std::mem::swap(&mut readers, &mut self.waitingToRead);
        std::mem::swap(&mut writers, &mut self.waitingToWrite);
        writers.push(t);
        *self = Operation {
            waitingToRead: readers,
            waitingToWrite: writers,
            activeReading: self.activeReading,
            activeWriting: self.activeWriting,
            reading: Ghost(self.reading@),
            writing: Ghost(self.writing@),
        };
    }

    /// The reader with ticket `t` leaves the queue and holds the lock.
    fn admit_reader(&mut self, t: u64)
        requires
            old(self).waitingToRead@.contains(t),
            old(self).activeWriting == 0,
            old(self).activeReading < i32::MAX,
        ensures
            final(self).waitingToRead@ == without(old(self).waitingToRead@, t),
            final(self).waitingToWrite@ == old(self).waitingToWrite@,
            final(self).activeReading == old(self).activeReading + 1,
            final(self).activeWriting == old(self).activeWriting,
            final(self).reading@ == old(self).reading@.insert(t),
            final(self).writing == old(self).writing,
    {
        proof {
            use_type_invariant(&*self);
            lemma_queue_step(
                self.waitingToRead@,
                self.waitingToWrite@,
                self.reading@,
                self.writing@,
                Request::Woken(t),
            );
        }
        let i = position(&self.waitingToRead, t);
        let mut readers: Vec<u64> = Vec::new();
        let mut writers: Vec<u64> = Vec::new();
        std::mem::swap(&mut readers, &mut self.waitingToRead);
        std::mem::swap(&mut writers, &mut self.waitingToWrite);
        readers.remove(i);
        let ghost reading = self.reading@.insert(t);
        assert(reading.len() == self.reading@.len() + 1);
        *self = Operation {
            waitingToRead: readers,
            waitingToWrite: writers,
            activeReading: self.activeReading + 1,
            activeWriting: self.activeWriting,
            reading: Ghost(reading),
            writing: Ghost(self.writing@),
        };
    }

    /// The writer with ticket `t` leaves the queue and holds the lock.
    fn admit_writer(&mut self, t: u64)
        requires
            old(self).waitingToWrite@.contains(t),
            old(self).activeWriting == 0,
            old(self).activeReading == 0,
        ensures
            final(self).waitingToWrite@ == without(old(self).waitingToWrite@, t),
            final(self).waitingToRead@ == old(self).waitingToRead@,
            final(self).activeWriting == old(self).activeWriting + 1,
            final(self).activeReading == old(self).activeReading,
            final(self).writing@ == old(self).writing@.insert(t),
            final(self).reading == old(self).reading,
    {
        proof {
            use_type_invariant(&*self);
            lemma_queue_step(
                self.waitingToWrite@,
                self.waitingToRead@,
                self.writing@,
                self.reading@,
                Request::Woken(t),
            );
        }
        let i = position(&self.waitingToWrite, t);
        let mut readers: Vec<u64> = Vec::new();
        let mut writers: Vec<u64> = Vec::new();
        std::mem::swap(&mut readers, &mut self.waitingToRead);
        std::mem::swap(&mut writers, &mut self.waitingToWrite);
        writers.remove(i);
        let ghost writing = self.writing@.insert(t);
        assert(writing.len() == self.writing@.len() + 1);
        *self = Operation {
            waitingToRead: readers,
            waitingToWrite: writers,
            activeReading: self.activeReading,
            activeWriting: self.activeWriting + 1,
            reading: Ghost(self.reading@),
            writing: Ghost(writing),
        };
    }

    /// The reader with ticket `t` leaves: one reader fewer holds the lock.
    fn release_reader(&mut self, t: u64)
        requires
            old(self).reading@.contains(t),
        ensures
            final(self).waitingToRead == old(self).waitingToRead,
            final(self).waitingToWrite == old(self).waitingToWrite,
            final(self).activeReading == old(self).activeReading - 1,
            final(self).activeWriting == old(self).activeWriting,
            final(self).reading@ == old(self).reading@.remove(t),
            final(self).writing == old(self).writing,
    {
        proof {
            use_type_invariant(&*self);
        }
        if self.activeReading > 0 {
            let mut readers: Vec<u64> = Vec::new();
            let mut writers: Vec<u64> = Vec::new();
            std::mem::swap(&mut readers, &mut self.waitingToRead);
            std::mem::swap(&mut writers, &mut self.waitingToWrite);
            *self = Operation {
                waitingToRead: readers,
                waitingToWrite: writers,
                activeReading: self.activeReading - 1,
                activeWriting: self.activeWriting,
                reading: Ghost(self.reading@.remove(t)),
                writing: Ghost(self.writing@),
            };
        }
    }

    /// The writer with ticket `t` leaves: no writer holds the lock.
    fn release_writer(&mut self, t: u64)
        requires
            old(self).writing@.contains(t),
        ensures
            final(self).waitingToRead == old(self).waitingToRead,
            final(self).waitingToWrite == old(self).waitingToWrite,
            final(self).activeWriting == old(self).activeWriting - 1,
            final(self).activeWriting == 0,
            final(self).activeReading == old(self).activeReading,
            final(self).writing@ == old(self).writing@.remove(t),
            final(self).reading == old(self).reading,
    {
        proof {
            use_type_invariant(&*self);
        }
        if self.activeWriting > 0 {
            let mut readers: Vec<u64> = Vec::new();
            let mut writers: Vec<u64> = Vec::new();
            std::mem::swap(&mut readers, &mut self.waitingToRead);
            std::mem::swap(&mut writers, &mut self.waitingToWrite);
            *self = Operation {
                waitingToRead: readers,
                waitingToWrite: writers,
                activeReading: self.activeReading,
                activeWriting: self.activeWriting - 1,
                reading: Ghost(self.reading@),
                writing: Ghost(self.writing@.remove(t)),
            };
        }
        assert(self.activeWriting == 0);
    }
}

impl<T> RwLock<T> {
    /// Constructs a new `RwLock`
    ///
    /// data: the shared object to be protected by this lock
    /// pref: which preference
    /// order: in which order to wake up the threads waiting on this lock
    pub fn new(data: T, pref: Preference, order: Order) -> (lock: RwLock<T>)
        ensures
            lock.wf(),
            lock.value() == data,
            lock.preference() == pref,
            lock.wake_order() == order,
            lock.readers_waiting() == Seq::<u64>::empty(),
            lock.writers_waiting() == Seq::<u64>::empty(),
            lock.readers_active() == 0,
            lock.writers_active() == 0,
            lock.read_holders() == Set::<u64>::empty(),
            lock.write_holders() == Set::<u64>::empty(),
    {
        let operation = Operation {
            waitingToRead: Vec::new(),
            waitingToWrite: Vec::new(),
            activeReading: 0,
            activeWriting: 0,
            reading: Ghost(Set::empty()),
            writing: Ghost(Set::empty()),
        };
        RwLock {
            data: data,
            pref: pref,
            order: order,
            operation: operation,
            dataI: 0,
            dataJ: 0,
            dataK: 0,
            dataL: 0,
            type1: false,
        }
    }

    /// The protected data.
    pub fn data(&self) -> (r: &T)
        ensures
            *r == self.value(),
    {
        &self.data
    }

    /// Law: every lock is well formed: at most one writer holds it, never
    /// beside a reader, and the waiting and holding tickets are consistent
    /// (see `consistent`). It holds of every lock value from `new` on, as a
    /// type invariant that every step keeps.
    pub fn well_formed(&self)
        ensures
            self.wf(),
            self.writers_active() <= 1,
            self.writers_active() == 1 ==> self.readers_active() == 0,
    {
        proof {
            use_type_invariant(&self.operation);
        }
    }

    /// How many threads hold the lock for reading.
    pub fn active_readers(&self) -> (n: i32)
        ensures
            n as int == self.readers_active(),
    {
        self.operation.activeReading
    }

    /// Whether a thread asking for `input` (`"read"` or `"write"`) must wait
    /// now; any other request waits.
    pub fn waitOnType(&self, input: &str) -> (wait: bool)
        ensures
            input@ == "read"@ ==> wait == self.reader_waits(),
            input@ == "write"@ ==> wait == self.writer_waits(),
            input@ != "read"@ && input@ != "write"@ ==> wait,
    {
        proof {
            lemma_request_names();
        }
        let mut wait = true;
        let writeLen = self.operation.waitingToWrite.len();
        let activeWriting = self.operation.activeWriting;
        let readLen = self.operation.waitingToRead.len();
        let activeReading = self.operation.activeReading;
        let mut dataI = self.dataI;
        let mut dataJ = self.dataJ;
        if same_text(input, "read") {
            match self.pref {
                Preference::Reader => {
                    if activeWriting > 0 {
                        wait = true;
                    } else {
                        wait = false;
                    }
                    dataI = 1;
                },
                Preference::Writer => {
                    if activeWriting > 0 || writeLen > 0 {
                        wait = true;
                    } else {
                        wait = false;
                    }
                    dataJ = 2;
                },
            }
        } else if same_text(input, "write") {
            match self.pref {
                Preference::Reader => {
                    if activeReading > 0 || readLen > 0 || activeWriting > 0 {
                        wait = true;
                    } else {
                        wait = false;
                    }
                    dataI = 1;
                },
                Preference::Writer => {
                    if activeWriting > 0 || activeReading > 0 {
                        wait = true;
                    } else {
                        wait = false;
                    }
                    dataJ = 2;
                },
            }
        }
        self.checkDatas();
        wait
    }

    /// One step of a request to read. On `Arrive` the thread joins the
    /// readers' queue under its new ticket; then, if a reader need not wait,
    /// the thread leaves the queue under its own ticket, the number of
    /// active readers grows by one, and the hold is handed out. Otherwise
    /// `None`: the thread waits until it is woken, and then asks again with
    /// `Woken` and its ticket.
    pub fn read(&mut self, request: Request) -> (granted: Option<RwLockReadGuard>)
        requires
            old(self).admissible(old(self).readers_waiting(), request),
            !old(self).reader_waits() ==> old(self).readers_active() < i32::MAX,
        ensures
            final(self).wf(),
            old(self).wf(),
            old(self).read_step(final(self), request, granted is Some),
            granted matches Some(g) ==> g.holder() == request_ticket(request),
            granted is Some ==> final(self).writers_active() == 0,
    {
        proof {
            use_type_invariant(&self.operation);
        }
        let mut dataK = self.dataK;
        let mut dataL = self.dataL;
        let ticket = match request {
            Request::Arrive(t) => {
                self.operation.enqueue_reader(t);
                assert(self.operation.waitingToRead@[self.operation.waitingToRead@.len() - 1] == t);
                t
            },
            Request::Woken(t) => t,
        };
        if self.waitOnType("read") {
            proof {
                use_type_invariant(&self.operation);
            }
            return None;
        }
        match self.order {
            Order::Fifo => {
                dataK = 1;
            },
            Order::Lifo => {
                dataL = 2;
            },
        }
        self.operation.admit_reader(ticket);
        self.checkDatas();
        proof {
            use_type_invariant(&self.operation);
        }
        Some(RwLockReadGuard { ticket })
    }

    /// One step of a request to write: as `read`, with the writers' queue,
    /// and the hold handed out only when no reader and no other writer
    /// holds the lock.
    pub fn write(&mut self, request: Request) -> (granted: Option<RwLockWriteGuard>)
        requires
            old(self).admissible(old(self).writers_waiting(), request),
        ensures
            final(self).wf(),
            old(self).wf(),
            old(self).write_step(final(self), request, granted is Some),
            granted matches Some(g) ==> g.holder() == request_ticket(request),
            granted is Some ==> final(self).readers_active() == 0 && final(self).writers_active() == 1,
    {
        proof {
            use_type_invariant(&self.operation);
        }
        let mut dataK = self.dataK;
        let mut dataL = self.dataL;
        let ticket = match request {
            Request::Arrive(t) => {
                self.operation.enqueue_writer(t);
                assert(self.operation.waitingToWrite@[self.operation.waitingToWrite@.len() - 1] == t);
                t
            },
            Request::Woken(t) => t,
        };
        if self.waitOnType("write") {
            proof {
                use_type_invariant(&self.operation);
            }
            return None;
        }
        match self.order {
            Order::Fifo => {
                dataK = 1;
            },
            Order::Lifo => {
                dataL = 2;
            },
        }
        self.operation.admit_writer(ticket);
        self.checkDatas();
        proof {
            use_type_invariant(&self.operation);
        }
        Some(RwLockWriteGuard { ticket })
    }

    /// Looks at the lock's bookkeeping fields; it changes nothing and
    /// returns nothing.
    pub fn checkDatas(&self) {
        let mut boolean = false;
        match self.dataI {
            1 => boolean = true,
            2 => boolean = false,
            _ => (),
        }
        match self.dataJ {
            1 => boolean = true,
            2 => boolean = false,
            _ => (),
        }
        match self.dataK {
            1 => boolean = true,
            2 => boolean = false,
            _ => (),
        }
        match self.dataL {
            1 => boolean = true,
            2 => boolean = false,
            _ => (),
        }
    }

    /// Reader preference, last in first out: every waiting reader, the
    /// latest first; if none, the latest waiting writer.
    pub fn prefReaderOrderLifo(&self) -> (woken: Vec<u64>)
        ensures
            woken@ == wake_list(Preference::Reader, Order::Lifo, self.readers_waiting(), self.writers_waiting()),
    {
        let readLen = self.operation.waitingToRead.len();
        let writeLen = self.operation.waitingToWrite.len();
        if readLen >= 1 {
            tickets_in_order(&self.operation.waitingToRead, Order::Lifo)
        } else if writeLen >= 1 {
            vec![self.operation.waitingToWrite[writeLen - 1]]
        } else {
            Vec::new()
        }
    }

    /// Reader preference, first in first out: every waiting reader, the
    /// earliest first; if none, the earliest waiting writer.
    pub fn prefReaderOrderFifo(&self) -> (woken: Vec<u64>)
        ensures
            woken@ == wake_list(Preference::Reader, Order::Fifo, self.readers_waiting(), self.writers_waiting()),
    {
        let readLen = self.operation.waitingToRead.len();
        let writeLen = self.operation.waitingToWrite.len();
        if readLen >= 1 {
            tickets_in_order(&self.operation.waitingToRead, Order::Fifo)
        } else if writeLen >= 1 {
            vec![self.operation.waitingToWrite[0]]
        } else {
            Vec::new()
        }
    }

    /// Writer preference, last in first out: the latest waiting writer; if
    /// none, every waiting reader, the latest first.
    pub fn prefWriterOrderLifo(&self) -> (woken: Vec<u64>)
        ensures
            woken@ == wake_list(Preference::Writer, Order::Lifo, self.readers_waiting(), self.writers_waiting()),
    {
        let readLen = self.operation.waitingToRead.len();
        let writeLen = self.operation.waitingToWrite.len();
        if writeLen >= 1 {
            vec![self.operation.waitingToWrite[writeLen - 1]]
        } else if readLen >= 1 {
            tickets_in_order(&self.operation.waitingToRead, Order::Lifo)
        } else {
            Vec::new()
        }
    }

    /// Writer preference, first in first out: the earliest waiting writer;
    /// if none, every waiting reader, the earliest first.
    pub fn prefWriterOrderFifo(&self) -> (woken: Vec<u64>)
        ensures
            woken@ == wake_list(Preference::Writer, Order::Fifo, self.readers_waiting(), self.writers_waiting()),
    {
        let readLen = self.operation.waitingToRead.len();
        let writeLen = self.operation.waitingToWrite.len();
        if writeLen >= 1 {
            vec![self.operation.waitingToWrite[0]]
        } else if readLen >= 1 {
            tickets_in_order(&self.operation.waitingToRead, Order::Fifo)
        } else {
            Vec::new()
        }
    }

    /// Reader preference, in the lock's order.
    pub fn prefReader(&self) -> (woken: Vec<u64>)
        ensures
            woken@ == wake_list(Preference::Reader, self.wake_order(), self.readers_waiting(), self.writers_waiting()),
    {
        match self.order {
            Order::Lifo => self.prefReaderOrderLifo(),
            Order::Fifo => self.prefReaderOrderFifo(),
        }
    }

    /// Writer preference, in the lock's order.
    pub fn prefWriter(&self) -> (woken: Vec<u64>)
        ensures
            woken@ == wake_list(Preference::Writer, self.wake_order(), self.readers_waiting(), self.writers_waiting()),
    {
        match self.order {
            Order::Lifo => self.prefWriterOrderLifo(),
            Order::Fifo => self.prefWriterOrderFifo(),
        }
    }

    /// The tickets of the waiting threads to wake up, in order, by the
    /// lock's preference and order.
    pub fn preferenceAndOrder(&self) -> (woken: Vec<u64>)
        ensures
            woken@ == self.to_wake(),
    {
        match self.pref {
            Preference::Reader => self.prefReader(),
            Preference::Writer => self.prefWriter(),
        }
    }
}

impl RwLockReadGuard {
    /// Releases the read lock that this guard holds: one reader fewer holds
    /// it, and the waiting threads to wake up are returned, in order.
    pub fn release<T>(self, lock: &mut RwLock<T>) -> (woken: Vec<u64>)
        requires
            old(lock).read_holders().contains(self.holder()),
        ensures
            final(lock).wf(),
            old(lock).wf(),
            old(lock).read_release_step(final(lock), self.holder()),
            woken@ == final(lock).to_wake(),
    {
        proof {
            use_type_invariant(&lock.operation);
        }
        lock.operation.release_reader(self.ticket);
        proof {
            use_type_invariant(&lock.operation);
        }
        lock.preferenceAndOrder()
    }
}

impl RwLockWriteGuard {
    /// Releases the write lock that this guard holds: afterwards no writer
    /// holds it, and the waiting threads to wake up are returned, in order.
    pub fn release<T>(self, lock: &mut RwLock<T>) -> (woken: Vec<u64>)
        requires
            old(lock).write_holders().contains(self.holder()),
        ensures
            final(lock).wf(),
            old(lock).wf(),
            old(lock).write_release_step(final(lock), self.holder()),
            final(lock).writers_active() == 0,
            woken@ == final(lock).to_wake(),
    {
        proof {
            use_type_invariant(&lock.operation);
        }
        lock.operation.release_writer(self.ticket);
        proof {
            use_type_invariant(&lock.operation);
        }
        lock.preferenceAndOrder()
    }
}

} // verus!
