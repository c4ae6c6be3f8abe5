use vstd::prelude::*;

use crate::signals::{intersects, readable, Signals};
use crate::waiter::{signal_all_matching_waiters, woken, WaiterList};

verus! {

/// The record an object carries while it is enrolled in a wait group: what
/// the group waits for on it, what it reports, which group (by its slot in the
/// object table), and whether it currently counts as signaled.
#[derive(Clone, Copy, Debug, PartialEq, Eq, Structural)]
pub struct WaitGroupMember {
    pub signal_mask: Signals,
    pub user_data: usize,
    pub wait_group: usize,
    pub is_signaled: bool,
}

/// No slot is listed twice.
pub open spec fn no_duplicates(s: Seq<usize>) -> bool {
    forall|i: int, j: int| 0 <= i < j < s.len() ==> s[i] != s[j]
}

/// `s` with its one entry `x` taken out.
pub open spec fn without(s: Seq<usize>, x: usize) -> Seq<usize> {
    s.remove(s.index_of(x))
}

/// Taking the one `x` out of a list without duplicates leaves every other
/// entry in it and `x` nowhere.
pub proof fn lemma_without(s: Seq<usize>, x: usize)
    requires
        no_duplicates(s),
        s.contains(x),
    ensures
        no_duplicates(without(s, x)),
        !without(s, x).contains(x),
        forall|y: usize| y != x ==> (without(s, x).contains(y) <==> s.contains(y)),
{
    let k = s.index_of(x);
    let t = without(s, x);
    assert forall|y: usize| y != x implies (t.contains(y) <==> s.contains(y)) by {
        if s.contains(y) {
            let j = choose|j: int| 0 <= j < s.len() && s[j] == y;
            if j < k {
                assert(t[j] == y);
            } else {
                assert(t[j - 1] == y);
            }
        }
        if t.contains(y) {
            let j = choose|j: int| 0 <= j < t.len() && t[j] == y;
            if j < k {
                assert(s[j] == y);
            } else {
                assert(s[j + 1] == y);
            }
        }
    }
    if t.contains(x) {
        let j = choose|j: int| 0 <= j < t.len() && t[j] == x;
        if j < k {
            assert(s[j] == x);
        } else {
            assert(s[j + 1] == x);
        }
    }
    assert forall|i: int, j: int| 0 <= i < j < t.len() implies t[i] != t[j] by {
        let si = if i < k { i } else { i + 1 };
        let sj = if j < k { j } else { j + 1 };
        assert(t[i] == s[si]);
        assert(t[j] == s[sj]);
    }
}

/// Putting a new `x` at the front of a list without duplicates keeps it
/// without duplicates and adds `x` alone.
pub proof fn lemma_insert_front(s: Seq<usize>, x: usize)
    requires
        no_duplicates(s),
        !s.contains(x),
    ensures
        no_duplicates(s.insert(0, x)),
        s.insert(0, x).contains(x),
        forall|y: usize| y != x ==> (s.insert(0, x).contains(y) <==> s.contains(y)),
{
    let t = s.insert(0, x);
    assert(t[0] == x);
    assert forall|y: usize| y != x implies (t.contains(y) <==> s.contains(y)) by {
        if s.contains(y) {
            let j = choose|j: int| 0 <= j < s.len() && s[j] == y;
            assert(t[j + 1] == y);
        }
        if t.contains(y) {
            let j = choose|j: int| 0 <= j < t.len() && t[j] == y;
            assert(s[j - 1] == y);
        }
    }
    assert forall|i: int, j: int| 0 <= i < j < t.len() implies t[i] != t[j] by {
        if i == 0 {
            assert(s[j - 1] == t[j]);
        } else {
            assert(s[i - 1] == t[i]);
            assert(s[j - 1] == t[j]);
        }
    }
}

impl WaitGroupMember {
    /// Records the member's view of `active_signals` and reports whether it
    /// counted as signaled before.
    pub fn signal(&mut self, active_signals: Signals) -> (was_signaled: bool)
        ensures
            was_signaled == old(self).is_signaled,
            *final(self) == (WaitGroupMember {
                is_signaled: intersects(active_signals, old(self).signal_mask),
                ..*old(self)
            }),
    {
        let was_signaled = self.is_signaled;
        self.is_signaled = active_signals.intersects(self.signal_mask);
        was_signaled
    }

    /// Moves `member` from the front-to-back list `from` to the front of `to`.
    pub fn move_member_between_lists(from: &mut Vec<usize>, to: &mut Vec<usize>, member: usize)
        requires
            old(from)@.contains(member),
            no_duplicates(old(from)@),
            no_duplicates(old(to)@),
            !old(to)@.contains(member),
        ensures
            final(from)@ == without(old(from)@, member),
            final(to)@ == old(to)@.insert(0, member),
            no_duplicates(final(from)@),
            no_duplicates(final(to)@),
    {
        unlink(from, member);
        push_front(to, member);
    }
}

/// Takes `member` out of `list`.
pub fn unlink(list: &mut Vec<usize>, member: usize)
    requires
        old(list)@.contains(member),
        no_duplicates(old(list)@),
    ensures
        final(list)@ == without(old(list)@, member),
        no_duplicates(final(list)@),
        !final(list)@.contains(member),
        forall|x: usize| x != member ==> (final(list)@.contains(x) <==> old(list)@.contains(x)),
{
    let ghost k = list@.index_of(member);
    let mut i: usize = 0;
    while i < list.len() && list[i] != member
        invariant
            0 <= i <= list@.len(),
            forall|j: int| 0 <= j < i ==> list@[j] != member,
            0 <= k < list@.len(),
            list@[k] == member,
        decreases list@.len() - i,
    {
        i = i + 1;
    }
    let ghost before = list@;
    list.remove(i);
    proof {
        assert(i == k);
        lemma_without(before, member);
    }
}

/// The state of a wait group: its members split by whether they are
/// signaled (most recent first), and the waiters sleeping on the group.
pub struct WaitGroupState {
    pub signaled_objects: Vec<usize>,
    pub unsignaled_objects: Vec<usize>,
    pub waiters: WaiterList,
}

impl WaitGroupState {
    pub fn new() -> (r: WaitGroupState)
        ensures
            r.signaled_objects@.len() == 0,
            r.unsignaled_objects@.len() == 0,
            r.waiters.entries@.len() == 0,
            r.waiters.wf(),
    {
        WaitGroupState {
            signaled_objects: Vec::new(),
            unsignaled_objects: Vec::new(),
            waiters: WaiterList::new(),
        }
    }
}

/// An object that becomes ready when any of its member objects does.
pub struct WaitGroupObject {
    pub state: WaitGroupState,
}

impl WaitGroupObject {
    pub open spec fn wf(&self) -> bool {
        &&& self.state.waiters.wf()
        &&& no_duplicates(self.state.signaled_objects@)
        &&& no_duplicates(self.state.unsignaled_objects@)
    }

    pub open spec fn has_no_members(&self) -> bool {
        self.state.signaled_objects@.len() == 0 && self.state.unsignaled_objects@.len() == 0
    }

    pub fn new() -> (r: WaitGroupObject)
        ensures
            r.wf(),
            r.has_no_members(),
            r.state.waiters.entries@.len() == 0,
    {
        WaitGroupObject { state: WaitGroupState::new() }
    }

    pub fn has_members(&self) -> (r: bool)
        ensures
            r == !self.has_no_members(),
    {
        self.state.signaled_objects.len() != 0 || self.state.unsignaled_objects.len() != 0
    }

    /// The most recently signaled member, if any member is signaled.
    pub fn peek_signaled(&self) -> (r: Option<usize>)
        ensures
            self.state.signaled_objects@.len() == 0 ==> r is None,
            self.state.signaled_objects@.len() > 0 ==> r == Some(self.state.signaled_objects@[0]),
    {
        if self.state.signaled_objects.len() == 0 {
            None
        } else {
            Some(self.state.signaled_objects[0])
        }
    }

    /// Puts a newly enrolled `member` at the front of the list its state
    /// calls for.
    pub fn link_member(&mut self, member: usize, is_signaled: bool)
        requires
            old(self).wf(),
            !old(self).state.signaled_objects@.contains(member),
            !old(self).state.unsignaled_objects@.contains(member),
        ensures
            final(self).wf(),
            final(self).state.waiters == old(self).state.waiters,
            is_signaled ==> final(self).state.signaled_objects@
                == old(self).state.signaled_objects@.insert(0, member),
            is_signaled ==> final(self).state.unsignaled_objects@
                == old(self).state.unsignaled_objects@,
            !is_signaled ==> final(self).state.unsignaled_objects@
                == old(self).state.unsignaled_objects@.insert(0, member),
            !is_signaled ==> final(self).state.signaled_objects@
                == old(self).state.signaled_objects@,
    {
        if is_signaled {
            push_front(&mut self.state.signaled_objects, member);
        } else {
            push_front(&mut self.state.unsignaled_objects, member);
        }
    }

    /// Takes `member` out of the list its state says it is in.
    pub fn unlink_member(&mut self, member: usize, is_signaled: bool)
        requires
            old(self).wf(),
            is_signaled ==> old(self).state.signaled_objects@.contains(member),
            !is_signaled ==> old(self).state.unsignaled_objects@.contains(member),
        ensures
            final(self).wf(),
            final(self).state.waiters == old(self).state.waiters,
            is_signaled ==> final(self).state.signaled_objects@ == without(
                old(self).state.signaled_objects@,
                member,
            ),
            is_signaled ==> final(self).state.unsignaled_objects@
                == old(self).state.unsignaled_objects@,
            !is_signaled ==> final(self).state.unsignaled_objects@ == without(
                old(self).state.unsignaled_objects@,
                member,
            ),
            !is_signaled ==> final(self).state.signaled_objects@
                == old(self).state.signaled_objects@,
    {
        if is_signaled {
            unlink(&mut self.state.signaled_objects, member);
        } else {
            unlink(&mut self.state.unsignaled_objects, member);
        }
    }

    /// The group's side of a member's signal change: a member that became
    /// signaled moves to the front of `signaled_objects`, one that stopped
    /// being signaled moves to the front of `unsignaled_objects`, and when
    /// the member has just become signaled every group waiter that waits for
    /// `READABLE` is woken with the member's `user_data`.
    pub fn member_signal(
        &mut self,
        member: usize,
        was_signaled: bool,
        signaled: bool,
        user_data: usize,
    )
        requires
            old(self).wf(),
            was_signaled ==> old(self).state.signaled_objects@.contains(member)
                && !old(self).state.unsignaled_objects@.contains(member),
            !was_signaled ==> old(self).state.unsignaled_objects@.contains(member)
                && !old(self).state.signaled_objects@.contains(member),
        ensures
            final(self).wf(),
            signaled && !was_signaled ==> final(self).state.signaled_objects@
                == old(self).state.signaled_objects@.insert(0, member)
                && final(self).state.unsignaled_objects@ == without(
                old(self).state.unsignaled_objects@,
                member,
            ),
            !signaled && was_signaled ==> final(self).state.unsignaled_objects@
                == old(self).state.unsignaled_objects@.insert(0, member)
                && final(self).state.signaled_objects@ == without(
                old(self).state.signaled_objects@,
                member,
            ),
            signaled == was_signaled ==> final(self).state.signaled_objects@
                == old(self).state.signaled_objects@ && final(self).state.unsignaled_objects@
                == old(self).state.unsignaled_objects@,
            !(signaled && !was_signaled) ==> final(self).state.waiters == old(
                self,
            ).state.waiters,
            signaled && !was_signaled ==> final(self).state.waiters.next_key == old(self).state.waiters.next_key
                && final(self).state.waiters.entries@.len()
                == old(self).state.waiters.entries@.len() && forall|i: int|
                0 <= i < old(self).state.waiters.entries@.len()
                    ==> #[trigger] final(self).state.waiters.entries@[i] == woken(
                    old(self).state.waiters.entries@[i],
                    readable(),
                    user_data,
                ),
    {
        if !signaled && !was_signaled {
            return;
        }
        if signaled && !was_signaled {
            WaitGroupMember::move_member_between_lists(
                &mut self.state.unsignaled_objects,
                &mut self.state.signaled_objects,
                member,
            );
        } else if !signaled && was_signaled {
            WaitGroupMember::move_member_between_lists(
                &mut self.state.signaled_objects,
                &mut self.state.unsignaled_objects,
                member,
            );
        }
        if signaled && !was_signaled {
            signal_all_matching_waiters(&mut self.state.waiters, Signals::readable(), user_data);
        }
    }
}

/// Puts `member` at the front of `list`.
pub fn push_front(list: &mut Vec<usize>, member: usize)
    requires
        no_duplicates(old(list)@),
        !old(list)@.contains(member),
    ensures
        final(list)@ == old(list)@.insert(0, member),
        no_duplicates(final(list)@),
{
    list.insert(0, member);
    proof {
        lemma_insert_front(old(list)@, member);
    }
}

} // verus!
