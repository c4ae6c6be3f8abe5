use vstd::prelude::*;

use crate::signals::{intersects, Error, Signals, WaitReturn};

verus! {

/// The cell a signaler writes a waiter's outcome into.
///
/// It starts out holding `Err(Unknown)`; a signaler replaces that with the
/// successful outcome once, and the waiter reads it after leaving its list.
#[derive(Clone, Copy, Debug)]
pub struct WaitResult {
    pub result: Result<WaitReturn, Error>,
}

impl WaitResult {
    pub fn new() -> (r: WaitResult)
        ensures
            r.result == Err::<WaitReturn, Error>(Error::Unknown),
    {
        WaitResult { result: Err(Error::Unknown) }
    }

    pub fn get(&self) -> (r: Result<WaitReturn, Error>)
        ensures
            r == self.result,
    {
        self.result
    }

    pub fn set(&mut self, result: Result<WaitReturn, Error>)
        ensures
            final(self).result == result,
    {
        self.result = result;
    }
}

/// One sleeping wait: the signals it waits for, whether its event has been
/// fired, and the outcome written for it.
#[derive(Clone, Copy, Debug)]
pub struct ObjectWaiter {
    pub key: u64,
    pub signal_mask: Signals,
    pub signaled: bool,
    pub wait_result: WaitResult,
}

/// A waiter is consistent when its result cell has been written exactly when
/// its event has been fired.
pub open spec fn waiter_wf(w: ObjectWaiter) -> bool {
    if w.signaled {
        w.wait_result.result is Ok
    } else {
        w.wait_result.result == Err::<WaitReturn, Error>(Error::Unknown)
    }
}

/// What one waiter becomes when `active_signals` are announced with
/// `user_data`: a waiter not yet woken whose mask meets the signals gets its
/// result written and its event fired; every other waiter is left as it is,
/// so that a result cell is written at most once.
pub open spec fn woken(w: ObjectWaiter, active_signals: Signals, user_data: usize) -> ObjectWaiter {
    if !w.signaled && intersects(w.signal_mask, active_signals) {
        ObjectWaiter {
            signaled: true,
            wait_result: WaitResult {
                result: Ok(WaitReturn { pending_signals: active_signals, user_data }),
            },
            ..w
        }
    } else {
        w
    }
}

/// The waiters sleeping on one object, in arrival order, each found again by
/// the key it was given when it was added.
pub struct WaiterList {
    pub entries: Vec<ObjectWaiter>,
    pub next_key: u64,
}

impl WaiterList {
    /// Keys increase along the list and stay below `next_key`, so no key is
    /// held twice; each waiter's result cell agrees with its event.
    pub open spec fn wf(&self) -> bool {
        &&& forall|i: int, j: int|
            0 <= i < j < self.entries@.len() ==> self.entries@[i].key < self.entries@[j].key
        &&& forall|i: int|
            0 <= i < self.entries@.len() ==> #[trigger] self.entries@[i].key < self.next_key
        &&& forall|i: int| 0 <= i < self.entries@.len() ==> waiter_wf(#[trigger] self.entries@[i])
    }

    pub open spec fn has_key(&self, key: u64) -> bool {
        exists|i: int| 0 <= i < self.entries@.len() && self.entries@[i].key == key
    }

    /// The position of the waiter with `key`.
    pub open spec fn index_of_key(&self, key: u64) -> int {
        choose|i: int| 0 <= i < self.entries@.len() && self.entries@[i].key == key
    }

    pub fn new() -> (r: WaiterList)
        ensures
            r.wf(),
            r.entries@.len() == 0,
            r.next_key == 0,
    {
        WaiterList { entries: Vec::new(), next_key: 0 }
    }

    pub fn is_empty(&self) -> (r: bool)
        ensures
            r == (self.entries@.len() == 0),
    {
        self.entries.len() == 0
    }

    /// Appends a fresh waiter for `signal_mask` and returns its key; fails
    /// with `ResourceExhausted` once every key has been handed out.
    pub fn push_back(&mut self, signal_mask: Signals) -> (r: Result<u64, Error>)
        requires
            old(self).wf(),
        ensures
            final(self).wf(),
            old(self).next_key == u64::MAX ==> r == Err::<u64, Error>(Error::ResourceExhausted)
                && *final(self) == *old(self),
            old(self).next_key < u64::MAX ==> {
                &&& r == Ok::<u64, Error>(old(self).next_key)
                &&& final(self).next_key == old(self).next_key + 1
                &&& final(self).entries@ == old(self).entries@.push(
                    ObjectWaiter {
                        key: old(self).next_key,
                        signal_mask,
                        signaled: false,
                        wait_result: WaitResult { result: Err(Error::Unknown) },
                    },
                )
            },
    {
        if self.next_key == u64::MAX {
            return Err(Error::ResourceExhausted);
        }
        let key = self.next_key;
        let waiter = ObjectWaiter {
            key,
            signal_mask,
            signaled: false,
            wait_result: WaitResult::new(),
        };
        self.entries.push(waiter);
        self.next_key = key + 1;
        Ok(key)
    }

    pub fn contains_key(&self, key: u64) -> (r: bool)
        ensures
            r == self.has_key(key),
    {
        let mut i: usize = 0;
        while i < self.entries.len()
            invariant
                0 <= i <= self.entries@.len(),
                forall|j: int| 0 <= j < i ==> self.entries@[j].key != key,
            decreases self.entries@.len() - i,
        {
            if self.entries[i].key == key {
                return true;
            }
            i = i + 1;
        }
        false
    }

    /// Whether the waiter under `key` is in the list and its event has
    /// been fired.
    pub fn is_signaled(&self, key: u64) -> (r: bool)
        ensures
            r == exists|j: int|
                0 <= j < self.entries@.len() && self.entries@[j].key == key
                    && self.entries@[j].signaled,
    {
        let mut i: usize = 0;
        while i < self.entries.len()
            invariant
                0 <= i <= self.entries@.len(),
                forall|j: int|
                    0 <= j < i ==> !(self.entries@[j].key == key && self.entries@[j].signaled),
            decreases self.entries@.len() - i,
        {
            if self.entries[i].key == key && self.entries[i].signaled {
                return true;
            }
            i = i + 1;
        }
        false
    }

    /// Takes the waiter with `key` out of the list and hands it back.
    pub fn remove_element(&mut self, key: u64) -> (r: ObjectWaiter)
        requires
            old(self).wf(),
            old(self).has_key(key),
        ensures
            final(self).wf(),
            final(self).next_key == old(self).next_key,
            r == old(self).entries@[old(self).index_of_key(key)],
            r.key == key,
            final(self).entries@ == old(self).entries@.remove(old(self).index_of_key(key)),
            !final(self).has_key(key),
    {
        let ghost k = self.index_of_key(key);
        let mut i: usize = 0;
        while i < self.entries.len() && self.entries[i].key != key
            invariant
                0 <= i <= self.entries@.len(),
                forall|j: int| 0 <= j < i ==> self.entries@[j].key != key,
                self.entries@[k].key == key,
                0 <= k < self.entries@.len(),
            decreases self.entries@.len() - i,
        {
            i = i + 1;
        }
        proof {
            if (i as int) < k {
                assert(self.entries@[i as int].key < self.entries@[k].key);
            }
        }
        let w = self.entries.remove(i);
        assert(i == k);
        w
    }
}

/// Writes `{user_data, pending_signals: active_signals}` into every waiter of
/// `waiters` that waits for one of `active_signals` and has not been woken
/// yet, and fires its event.
pub fn signal_all_matching_waiters(
    waiters: &mut WaiterList,
    active_signals: Signals,
    user_data: usize,
)
    requires
        old(waiters).wf(),
    ensures
        final(waiters).wf(),
        final(waiters).next_key == old(waiters).next_key,
        final(waiters).entries@.len() == old(waiters).entries@.len(),
        forall|i: int|
            0 <= i < old(waiters).entries@.len() ==> #[trigger] final(waiters).entries@[i]
                == woken(old(waiters).entries@[i], active_signals, user_data),
{
    let ghost start = waiters.entries@;
    let mut i: usize = 0;
    while i < waiters.entries.len()
        invariant
            0 <= i <= waiters.entries@.len(),
            waiters.entries@.len() == start.len(),
            waiters.next_key == old(waiters).next_key,
            old(waiters).entries@ == start,
            forall|j: int|
                0 <= j < i ==> #[trigger] waiters.entries@[j] == woken(
                    start[j],
                    active_signals,
                    user_data,
                ),
            forall|j: int| i <= j < start.len() ==> #[trigger] waiters.entries@[j] == start[j],
            waiters.wf(),
        decreases start.len() - i,
    {
        let w = waiters.entries[i];
        if !w.signaled && w.signal_mask.intersects(active_signals) {
            let mut result = w.wait_result;
            result.set(Ok(WaitReturn { pending_signals: active_signals, user_data }));
            let fired = ObjectWaiter { signaled: true, wait_result: result, ..w };
            waiters.entries.set(i, fired);
        }
        i = i + 1;
    }
}

} // verus!
