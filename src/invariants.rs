use vstd::prelude::*;

use crate::signals::{intersects, readable, Error, Signals};
use crate::table::{added, removed, signaled, StaticObjectTable};
use crate::wait_group::without;
use crate::waiter::{waiter_wf, woken, ObjectWaiter, WaiterList};

verus! {

/// An enrolled member's record names a wait group, and the member is linked
/// in exactly one of that group's two lists: the signaled one exactly when
/// the record says it is signaled.
pub proof fn lemma_member_in_one_list(t: &StaticObjectTable, m: int)
    requires
        t.wf(),
        t.has_base(m),
        t.member(m) is Some,
    ensures
        ({
            let rec = t.member(m)->Some_0;
            let g = t.group(rec.wait_group as int);
            &&& t.is_group(rec.wait_group as int)
            &&& g.state.signaled_objects@.contains(m as usize) == rec.is_signaled
            &&& g.state.unsignaled_objects@.contains(m as usize) == !rec.is_signaled
            &&& rec.is_signaled == intersects(t.base(m).state.active_signals, rec.signal_mask)
        }),
{
    assert(t.slot_wf(m));
}

/// No two waiters of one list share a key, so removing by key takes out
/// exactly the waiter that was added under it.
pub proof fn lemma_waiter_keys_unique(l: &WaiterList, i: int, j: int)
    requires
        l.wf(),
        0 <= i < l.entries@.len(),
        0 <= j < l.entries@.len(),
        i != j,
    ensures
        l.entries@[i].key != l.entries@[j].key,
{
}

/// A waiter's result cell is written at most once: once woken, a waiter is
/// left as it is by every later signal, whatever its signals and data.
pub proof fn lemma_result_written_once(
    w: ObjectWaiter,
    first: Signals,
    first_data: usize,
    later: Signals,
    later_data: usize,
)
    requires
        waiter_wf(w),
    ensures
        waiter_wf(woken(w, first, first_data)),
        w.signaled ==> woken(w, first, first_data) == w,
        woken(w, first, first_data).signaled ==> woken(
            woken(w, first, first_data),
            later,
            later_data,
        ) == woken(w, first, first_data),
{
}

/// After a signal, every waiter of the object whose mask meets the new
/// active signals has been woken; and when the object is enrolled in a group
/// and has just become signaled for it, so has every waiter of the group that
/// waits for `READABLE`.
pub proof fn lemma_signal_wakes_matching(
    t0: &StaticObjectTable,
    t1: &StaticObjectTable,
    h: int,
    active: Signals,
)
    requires
        t0.wf(),
        t0.has_base(h),
        signaled(t0, t1, h, active),
    ensures
        forall|i: int|
            0 <= i < t1.base(h).state.waiters.entries@.len() && intersects(
                #[trigger] t1.base(h).state.waiters.entries@[i].signal_mask,
                active,
            ) ==> t1.base(h).state.waiters.entries@[i].signaled,
        t0.member(h) is Some && !t0.member(h)->Some_0.is_signaled && intersects(
            active,
            t0.member(h)->Some_0.signal_mask,
        ) ==> {
            let g = t1.group(t0.member(h)->Some_0.wait_group as int);
            forall|i: int|
                0 <= i < g.state.waiters.entries@.len() && intersects(
                    #[trigger] g.state.waiters.entries@[i].signal_mask,
                    readable(),
                ) ==> g.state.waiters.entries@[i].signaled
        },
{
    let b0 = t0.base(h);
    let b1 = t1.base(h);
    assert forall|i: int|
        0 <= i < b1.state.waiters.entries@.len() && intersects(
            #[trigger] b1.state.waiters.entries@[i].signal_mask,
            active,
        ) implies b1.state.waiters.entries@[i].signaled by {
        assert(b1.state.waiters.entries@[i] == woken(b0.state.waiters.entries@[i], active, 0));
    }
    if let Some(m) = t0.member(h) {
        if !m.is_signaled && intersects(active, m.signal_mask) {
            let g0 = t0.group(m.wait_group as int);
            let g1 = t1.group(m.wait_group as int);
            assert forall|i: int|
                0 <= i < g1.state.waiters.entries@.len() && intersects(
                    #[trigger] g1.state.waiters.entries@[i].signal_mask,
                    readable(),
                ) implies g1.state.waiters.entries@[i].signaled by {
                assert(g1.state.waiters.entries@[i] == woken(
                    g0.state.waiters.entries@[i],
                    readable(),
                    m.user_data,
                ));
            }
        }
    }
}

/// Enrolling a member in a group and then taking it out of the same group
/// succeeds and leaves the member with no wait-group record, its signals and
/// waiters as they were, the group's lists as they were, and every other
/// object untouched.
pub proof fn lemma_add_then_remove(
    t0: &StaticObjectTable,
    t1: &StaticObjectTable,
    t2: &StaticObjectTable,
    group: u32,
    member: u32,
    signal_mask: Signals,
    user_data: usize,
    r2: Result<(), Error>,
)
    requires
        t0.wf(),
        t1.wf(),
        added(t0, t1, group, member, signal_mask, user_data, Ok(())),
        removed(t1, t2, group, member, r2),
    ensures
        r2 is Ok,
        t2.len() == t0.len(),
        t2.member(member as int) is None,
        t2.base(member as int).state.active_signals == t0.base(member as int).state.active_signals,
        t2.base(member as int).state.waiters == t0.base(member as int).state.waiters,
        t2.group(group as int).state.signaled_objects@ == t0.group(
            group as int,
        ).state.signaled_objects@,
        t2.group(group as int).state.unsignaled_objects@ == t0.group(
            group as int,
        ).state.unsignaled_objects@,
        t2.group(group as int).state.waiters == t0.group(group as int).state.waiters,
        forall|i: int|
            0 <= i < t0.len() && i != group as int && i != member as int ==> #[trigger] t2.objects@[i]
                == t0.objects@[i],
{
    let g = group as int;
    let m = member as int;
    let x = member as usize;
    assert(t0.slot_wf(g));
    let s0 = t0.group(g).state.signaled_objects@;
    let u0 = t0.group(g).state.unsignaled_objects@;
    if s0.contains(x) {
        let k = choose|k: int| 0 <= k < s0.len() && s0[k] == x;
        assert(t0.enrolled(g, s0[k] as int, true));
    }
    if u0.contains(x) {
        let k = choose|k: int| 0 <= k < u0.len() && u0[k] == x;
        assert(t0.enrolled(g, u0[k] as int, false));
    }
    let is_signaled = t1.member(m)->Some_0.is_signaled;
    let l0 = if is_signaled { s0 } else { u0 };
    let l1 = l0.insert(0, x);
    assert(l1[0] == x);
    let k = l1.index_of(x);
    assert(l1.contains(x));
    if k != 0 {
        assert(l0[k - 1] == x);
        assert(l0.contains(x));
    }
    assert(without(l1, x) =~= l0);
    assert forall|i: int| 0 <= i < t0.len() && i != g && i != m implies #[trigger] t2.objects@[i]
        == t0.objects@[i] by {
        assert(t1.objects@[i] == t0.objects@[i]);
    }
}

} // verus!
