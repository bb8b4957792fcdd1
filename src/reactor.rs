use std::collections::{HashMap, HashSet};
use vstd::prelude::*;

verus! {

broadcast use vstd::std_specs::hash::group_hash_axioms;

/// The reactor's bookkeeping as a mathematical value.
pub struct ReactorModel<W> {
    /// Tokens of the descriptors registered with the readiness multiplexor.
    pub registered: Set<u64>,
    /// The wake handle to signal when a token's descriptor becomes ready.
    pub wakers: Map<u64, W>,
}

impl<W> ReactorModel<W> {
    /// The number of registrations of `fd`: one or none.
    pub open spec fn registrations(self, fd: u64) -> nat {
        if self.registered.contains(fd) {
            1
        } else {
            0
        }
    }

    /// The state after `register(fd)`.
    pub open spec fn with_registration(self, fd: u64) -> Self {
        ReactorModel { registered: self.registered.insert(fd), ..self }
    }

    /// The state after `update_waker(fd, waker)`.
    pub open spec fn with_waker(self, fd: u64, waker: W) -> Self {
        ReactorModel { wakers: self.wakers.insert(fd, waker), ..self }
    }

    /// The state after `remove(fd)`.
    pub open spec fn without(self, fd: u64) -> Self {
        ReactorModel { registered: self.registered.remove(fd), wakers: self.wakers.remove(fd) }
    }
}

/// The state after an operation on `fd` stored each of `wakers` in turn, on
/// the polls that would have blocked.
pub open spec fn parked<W>(m: ReactorModel<W>, fd: u64, wakers: Seq<W>) -> ReactorModel<W>
    decreases wakers.len(),
{
    if wakers.len() == 0 {
        m
    } else {
        parked(m, fd, wakers.drop_last()).with_waker(fd, wakers.last())
    }
}

proof fn lemma_parked_keeps_registrations<W>(m: ReactorModel<W>, fd: u64, wakers: Seq<W>)
    ensures
        parked(m, fd, wakers).registered == m.registered,
        parked(m, fd, wakers).wakers.dom() == if wakers.len() == 0 {
            m.wakers.dom()
        } else {
            m.wakers.dom().insert(fd)
        },
    decreases wakers.len(),
{
    if wakers.len() > 0 {
        lemma_parked_keeps_registrations(m, fd, wakers.drop_last());
        assert(parked(m, fd, wakers).wakers.dom() =~= m.wakers.dom().insert(fd));
    }
}

/// The lifetime of one operation on a descriptor that is not registered:
/// creating it registers the descriptor once, its polls only replace the wake
/// handle, and dropping it takes the registration away again, so that the
/// descriptor's registrations go from none to one and back to none, and no
/// wake handle is left for it.
pub proof fn lemma_operation_registration<W>(m: ReactorModel<W>, fd: u64, wakers: Seq<W>)
    requires
        !m.registered.contains(fd),
    ensures
        m.with_registration(fd).registrations(fd) == m.registrations(fd) + 1,
        parked(m.with_registration(fd), fd, wakers).registrations(fd) == m.registrations(fd)
            + 1,
        parked(m.with_registration(fd), fd, wakers).without(fd).registrations(fd)
            == m.registrations(fd),
        parked(m.with_registration(fd), fd, wakers).without(fd).registered == m.registered,
        !parked(m.with_registration(fd), fd, wakers).without(fd).wakers.contains_key(fd),
{
    let a = m.with_registration(fd);
    lemma_parked_keeps_registrations(a, fd, wakers);
    assert(parked(a, fd, wakers).without(fd).registered =~= m.registered);
}

/// What one attempt of a non-blocking operation came to.
pub enum Attempt<V, E> {
    /// The operation completed with this value.
    Done(V),
    /// The operation would have blocked.
    WouldBlock,
    /// The operation failed with this error.
    Failed(E),
}

/// Tracks which descriptors are registered for readiness and which wake
/// handle each of them resumes. A descriptor's token is its number widened to
/// 64 bits; at most one registration per descriptor exists at a time.
pub struct Reactor<W> {
    registered: HashSet<u64>,
    wakers: HashMap<u64, W>,
}

impl<W> View for Reactor<W> {
    type V = ReactorModel<W>;

    closed spec fn view(&self) -> ReactorModel<W> {
        ReactorModel { registered: self.registered@, wakers: self.wakers@ }
    }
}

impl<W> Reactor<W> {
    /// A reactor with nothing registered.
    pub fn new() -> (r: Self)
        ensures
            r@.registered == Set::<u64>::empty(),
            r@.wakers == Map::<u64, W>::empty(),
    {
        Reactor { registered: HashSet::new(), wakers: HashMap::new() }
    }

    /// Registers `fd`; a descriptor already registered keeps its registration.
    /// Returns whether the registration is new, that is whether the
    /// multiplexor must be told of it.
    pub fn register(&mut self, fd: u64) -> (added: bool)
        ensures
            added == !old(self)@.registered.contains(fd),
            final(self)@ == old(self)@.with_registration(fd),
    {
        self.registered.insert(fd)
    }

    /// Replaces the wake handle stored for `fd`.
    pub fn update_waker(&mut self, fd: u64, waker: W)
        ensures
            final(self)@ == old(self)@.with_waker(fd, waker),
    {
        self.wakers.insert(fd, waker);
    }

    /// Deregisters `fd` and drops its wake handle. Returns whether it was
    /// registered, that is whether the multiplexor must be told.
    pub fn remove(&mut self, fd: u64) -> (removed: bool)
        ensures
            removed == old(self)@.registered.contains(fd),
            final(self)@ == old(self)@.without(fd),
    {
        self.wakers.remove(&fd);
        self.registered.remove(&fd)
    }

    /// Whether `fd` is registered.
    pub fn is_registered(&self, fd: u64) -> (r: bool)
        ensures
            r == self@.registered.contains(fd),
    {
        self.registered.contains(&fd)
    }

    /// The number of registrations of `fd`: one or none.
    pub fn registrations(&self, fd: u64) -> (n: usize)
        ensures
            n == self@.registrations(fd),
    {
        if self.registered.contains(&fd) {
            1
        } else {
            0
        }
    }

    /// The wake handle to signal for a readiness event carrying `token`; the
    /// handle stays stored.
    pub fn waker(&self, token: u64) -> (r: Option<&W>)
        ensures
            match r {
                Some(w) => self@.wakers.contains_key(token) && *w == self@.wakers[token],
                None => !self@.wakers.contains_key(token),
            },
    {
        self.wakers.get(&token)
    }

    /// Concludes one poll of an operation on `fd`: a completed or failed
    /// attempt resolves the operation; one that would block stores `waker` as
    /// the handle to resume and leaves the operation pending (`None`).
    pub fn settle<V, E>(&mut self, fd: u64, attempt: Attempt<V, E>, waker: W) -> (r: Option<
        Result<V, E>,
    >)
        ensures
            match attempt {
                Attempt::Done(v) => r == Some(Ok::<V, E>(v)) && final(self)@ == old(self)@,
                Attempt::Failed(e) => r == Some(Err::<V, E>(e)) && final(self)@ == old(self)@,
                Attempt::WouldBlock => r is None && final(self)@ == old(self)@.with_waker(fd, waker),
            },
    {
        match attempt {
            Attempt::Done(v) => Some(Ok(v)),
            Attempt::Failed(e) => Some(Err(e)),
            Attempt::WouldBlock => {
                self.update_waker(fd, waker);
                None
            },
        }
    }
}

impl<W> Default for Reactor<W> {
    fn default() -> (r: Self)
        ensures
            r@.registered == Set::<u64>::empty(),
            r@.wakers == Map::<u64, W>::empty(),
    {
        Reactor::new()
    }
}

} // verus!
