use vstd::prelude::*;

use crate::signals::{intersects, Error, Signals, WaitReturn};
use crate::wait_group::{WaitGroupMember, WaitGroupObject};
use crate::waiter::{signal_all_matching_waiters, woken, ObjectWaiter, WaitResult, WaiterList};

verus! {

/// How a wait began: either the signals were already there, or the caller
/// now sleeps under the returned waiter key until its event fires or its
/// deadline passes, and then calls `finish_wait` with that key.
#[derive(Clone, Copy, Debug, PartialEq, Eq, Structural)]
pub enum WaitStart {
    Ready(WaitReturn),
    Parked(u64),
}

/// The waiter a fresh wait adds under `key` for `signal_mask`.
pub open spec fn fresh_waiter(key: u64, signal_mask: Signals) -> ObjectWaiter {
    ObjectWaiter {
        key,
        signal_mask,
        signaled: false,
        wait_result: WaitResult { result: Err(Error::Unknown) },
    }
}

/// The outcome of a wait whose event reported `event_result`: the event's
/// error when it timed out or was cancelled, else what was written for `w`.
pub open spec fn wait_outcome(w: ObjectWaiter, event_result: Result<(), Error>) -> Result<
    WaitReturn,
    Error,
> {
    match event_result {
        Err(e) => Err(e),
        Ok(()) => w.wait_result.result,
    }
}

/// `after` is `before` with one more waiter for `signal_mask` added, or the
/// same list when keys ran out; `r` says which.
pub open spec fn parked(
    before: WaiterList,
    after: WaiterList,
    signal_mask: Signals,
    r: Result<WaitStart, Error>,
) -> bool {
    if before.next_key == u64::MAX {
        r == Err::<WaitStart, Error>(Error::ResourceExhausted) && after == before
    } else {
        &&& r == Ok::<WaitStart, Error>(WaitStart::Parked(before.next_key))
        &&& after.next_key == before.next_key + 1
        &&& after.entries@ == before.entries@.push(fresh_waiter(before.next_key, signal_mask))
    }
}

/// `after` is `before` with the waiter under `key` taken out, and `r` the
/// outcome of that wait.
pub open spec fn unparked(
    before: WaiterList,
    after: WaiterList,
    key: u64,
    event_result: Result<(), Error>,
    r: Result<WaitReturn, Error>,
) -> bool {
    &&& after.next_key == before.next_key
    &&& after.entries@ == before.entries@.remove(before.index_of_key(key))
    &&& r == wait_outcome(before.entries@[before.index_of_key(key)], event_result)
}

/// `after` is `before` with every matching waiter woken by `active_signals`
/// and `user_data`.
pub open spec fn all_woken(
    before: WaiterList,
    after: WaiterList,
    active_signals: Signals,
    user_data: usize,
) -> bool {
    &&& after.next_key == before.next_key
    &&& after.entries@.len() == before.entries@.len()
    &&& forall|i: int|
        0 <= i < before.entries@.len() ==> #[trigger] after.entries@[i] == woken(
            before.entries@[i],
            active_signals,
            user_data,
        )
}

/// The state every waitable object shares: its asserted signals, its
/// wait-group record while enrolled, and the waiters sleeping on it.
pub struct ObjectBaseState {
    pub active_signals: Signals,
    pub wait_group: Option<WaitGroupMember>,
    pub waiters: WaiterList,
}

impl ObjectBaseState {
    pub fn new() -> (r: ObjectBaseState)
        ensures
            r.active_signals.bits == 0,
            r.wait_group is None,
            r.waiters.wf(),
            r.waiters.entries@.len() == 0,
    {
        ObjectBaseState {
            active_signals: Signals::new(),
            wait_group: None,
            waiters: WaiterList::new(),
        }
    }
}

/// Common functionality used by the kernel objects that can be waited on.
pub struct ObjectBase {
    pub state: ObjectBaseState,
}

impl ObjectBase {
    pub open spec fn wf(&self) -> bool {
        self.state.waiters.wf()
    }

    /// The member record with its signaled flag brought up to
    /// `active_signals`.
    pub open spec fn member_after(m: Option<WaitGroupMember>, active_signals: Signals) -> Option<
        WaitGroupMember,
    > {
        match m {
            None => None,
            Some(m) => Some(
                WaitGroupMember {
                    is_signaled: intersects(active_signals, m.signal_mask),
                    ..m
                },
            ),
        }
    }

    pub fn new() -> (r: ObjectBase)
        ensures
            r.wf(),
            r.state.active_signals.bits == 0,
            r.state.wait_group is None,
            r.state.waiters.entries@.len() == 0,
    {
        ObjectBase { state: ObjectBaseState::new() }
    }

    /// Starts a wait for any of `signal_mask`: returns at once with the
    /// active signals and `user_data` 0 when one of them is active, else
    /// adds a waiter and returns its key.
    pub fn wait_until(&mut self, signal_mask: Signals) -> (r: Result<WaitStart, Error>)
        requires
            old(self).wf(),
        ensures
            final(self).wf(),
            final(self).state.active_signals == old(self).state.active_signals,
            final(self).state.wait_group == old(self).state.wait_group,
            intersects(old(self).state.active_signals, signal_mask) ==> r == Ok::<
                WaitStart,
                Error,
            >(WaitStart::Ready(WaitReturn { pending_signals: old(self).state.active_signals, user_data: 0 }))
                && final(self).state.waiters == old(self).state.waiters,
            !intersects(old(self).state.active_signals, signal_mask) ==> parked(
                old(self).state.waiters,
                final(self).state.waiters,
                signal_mask,
                r,
            ),
    {
        if self.state.active_signals.intersects(signal_mask) {
            return Ok(
                WaitStart::Ready(
                    WaitReturn { pending_signals: self.state.active_signals, user_data: 0 },
                ),
            );
        }
        park(&mut self.state.waiters, signal_mask)
    }

    pub fn has_waiter(&self, key: u64) -> (r: bool)
        ensures
            r == self.state.waiters.has_key(key),
    {
        self.state.waiters.contains_key(key)
    }

    /// Ends the wait parked under `key` once its event has returned
    /// `event_result`; the waiter leaves the list before its result is read.
    pub fn finish_wait(&mut self, key: u64, event_result: Result<(), Error>) -> (r: Result<
        WaitReturn,
        Error,
    >)
        requires
            old(self).wf(),
            old(self).state.waiters.has_key(key),
        ensures
            final(self).wf(),
            final(self).state.active_signals == old(self).state.active_signals,
            final(self).state.wait_group == old(self).state.wait_group,
            unparked(old(self).state.waiters, final(self).state.waiters, key, event_result, r),
    {
        unpark(&mut self.state.waiters, key, event_result)
    }

    /// Replaces the active signals with `update_fn` of them, brings the
    /// wait-group record up to date, and wakes every local waiter that waits
    /// for one of the new signals (with `user_data` 0). Returns the
    /// wait-group record as it was before, for the group's side of the
    /// change.
    pub fn signal<F: Fn(Signals) -> Signals>(&mut self, update_fn: F) -> (r: Option<
        WaitGroupMember,
    >)
        requires
            old(self).wf(),
            update_fn.requires((old(self).state.active_signals,)),
        ensures
            final(self).wf(),
            update_fn.ensures((old(self).state.active_signals,), final(self).state.active_signals),
            r == old(self).state.wait_group,
            final(self).state.wait_group == Self::member_after(
                old(self).state.wait_group,
                final(self).state.active_signals,
            ),
            all_woken(old(self).state.waiters, final(self).state.waiters, final(self).state.active_signals, 0),
    {
        let active_signals = update_fn(self.state.active_signals);
        self.signal_impl(active_signals)
    }

    /// Makes `active_signals` the active signals and carries the change to
    /// the wait-group record and the local waiters, as `signal` does.
    pub fn signal_impl(&mut self, active_signals: Signals) -> (r: Option<WaitGroupMember>)
        requires
            old(self).wf(),
        ensures
            final(self).wf(),
            final(self).state.active_signals == active_signals,
            r == old(self).state.wait_group,
            final(self).state.wait_group == Self::member_after(
                old(self).state.wait_group,
                active_signals,
            ),
            all_woken(old(self).state.waiters, final(self).state.waiters, active_signals, 0),
    {
        self.state.active_signals = active_signals;
        let previous = self.state.wait_group;
        match &mut self.state.wait_group {
            Some(member) => {
                member.signal(active_signals);
            },
            None => {},
        }
        signal_all_matching_waiters(&mut self.state.waiters, active_signals, 0);
        previous
    }
}

/// Adds a waiter for `signal_mask` to `waiters`.
pub fn park(waiters: &mut WaiterList, signal_mask: Signals) -> (r: Result<WaitStart, Error>)
    requires
        old(waiters).wf(),
    ensures
        final(waiters).wf(),
        parked(*old(waiters), *final(waiters), signal_mask, r),
{
    match waiters.push_back(signal_mask) {
        Ok(key) => Ok(WaitStart::Parked(key)),
        Err(e) => Err(e),
    }
}

/// Removes the waiter under `key` from `waiters` and returns the outcome
/// of its wait.
pub fn unpark(waiters: &mut WaiterList, key: u64, event_result: Result<(), Error>) -> (r: Result<
    WaitReturn,
    Error,
>)
    requires
        old(waiters).wf(),
        old(waiters).has_key(key),
    ensures
        final(waiters).wf(),
        unparked(*old(waiters), *final(waiters), key, event_result, r),
{
    let waiter = waiters.remove_element(key);
    match event_result {
        Err(e) => Err(e),
        Ok(()) => waiter.wait_result.get(),
    }
}

/// A kernel object, by kind. Channel endpoints and interrupts are waited on
/// through their object base; a wait group has none.
pub enum KernelObject {
    Channel(ObjectBase),
    Interrupt(ObjectBase),
    WaitGroup(WaitGroupObject),
}

/// The object base of `o`, when it has one.
pub open spec fn base_of(o: KernelObject) -> Option<ObjectBase> {
    match o {
        KernelObject::Channel(b) => Some(b),
        KernelObject::Interrupt(b) => Some(b),
        KernelObject::WaitGroup(_) => None,
    }
}

impl KernelObject {
    pub fn base(&self) -> (r: Option<&ObjectBase>)
        ensures
            match base_of(*self) {
                Some(b) => r matches Some(rb) && *rb == b,
                None => r is None,
            },
    {
        match self {
            KernelObject::Channel(b) => Some(b),
            KernelObject::Interrupt(b) => Some(b),
            KernelObject::WaitGroup(_) => None,
        }
    }
}

} // verus!
