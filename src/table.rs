use vstd::prelude::*;

use crate::object::{
    all_woken, base_of, parked, unparked, KernelObject, ObjectBase, WaitStart,
};
use crate::waiter::WaiterList;
use crate::signals::{intersects, readable, Error, Signals, WaitReturn};
use crate::wait_group::{
    lemma_insert_front, lemma_without, without, WaitGroupMember, WaitGroupObject,
};

verus! {

/// Translates handles to kernel objects.
pub trait ObjectTable {
    /// The object that `handle` names, if any.
    spec fn lookup(&self, handle: u32) -> Option<KernelObject>;

    fn get_object(&self, handle: u32) -> (r: Option<&KernelObject>)
        ensures
            match self.lookup(handle) {
                Some(o) => r matches Some(ro) && *ro == o,
                None => r is None,
            },
    ;
}

/// An object table with no entries.
pub struct NullObjectTable {}

impl NullObjectTable {
    pub fn new() -> NullObjectTable {
        NullObjectTable {  }
    }
}

impl ObjectTable for NullObjectTable {
    open spec fn lookup(&self, _handle: u32) -> Option<KernelObject> {
        None
    }

    fn get_object(&self, _handle: u32) -> (r: Option<&KernelObject>) {
        None
    }
}

/// The kinds of object a table can be given.
#[derive(Clone, Copy, Debug, PartialEq, Eq, Structural)]
pub enum ObjectKind {
    Channel,
    Interrupt,
    WaitGroup,
}

/// `o` with its object base replaced by `b`, of the same kind.
pub open spec fn with_base(o: KernelObject, b: ObjectBase) -> KernelObject {
    match o {
        KernelObject::Channel(_) => KernelObject::Channel(b),
        KernelObject::Interrupt(_) => KernelObject::Interrupt(b),
        KernelObject::WaitGroup(g) => KernelObject::WaitGroup(g),
    }
}

/// A table of objects indexed by handle, in which wait groups refer to their
/// members, and members to their group, by handle.
pub struct StaticObjectTable {
    pub objects: Vec<KernelObject>,
}

impl StaticObjectTable {
    pub open spec fn len(&self) -> int {
        self.objects@.len() as int
    }

    pub open spec fn has_base(&self, i: int) -> bool {
        0 <= i < self.len() && base_of(self.objects@[i]) is Some
    }

    pub open spec fn is_group(&self, i: int) -> bool {
        0 <= i < self.len() && self.objects@[i] is WaitGroup
    }

    pub open spec fn base(&self, i: int) -> ObjectBase {
        base_of(self.objects@[i])->Some_0
    }

    pub open spec fn group(&self, i: int) -> WaitGroupObject {
        self.objects@[i]->WaitGroup_0
    }

    /// The waiters sleeping on the object at `i`.
    pub open spec fn waiters_of(&self, i: int) -> WaiterList {
        match self.objects@[i] {
            KernelObject::WaitGroup(g) => g.state.waiters,
            _ => self.base(i).state.waiters,
        }
    }

    pub open spec fn member(&self, i: int) -> Option<WaitGroupMember> {
        self.base(i).state.wait_group
    }

    /// The object at `i` is enrolled in the group at `g`, with the given
    /// signaled flag.
    pub open spec fn enrolled(&self, g: int, i: int, is_signaled: bool) -> bool {
        &&& self.has_base(i)
        &&& self.member(i) is Some
        &&& self.member(i)->Some_0.wait_group == g
        &&& self.member(i)->Some_0.is_signaled == is_signaled
    }

    /// The member record `m` of the object at `i` agrees with that object's
    /// signals and with the lists of the group it names: `i` is in exactly
    /// one of them, the one its flag says.
    pub open spec fn member_linked(&self, i: int, m: WaitGroupMember) -> bool {
        let g = m.wait_group as int;
        &&& m.is_signaled == intersects(self.base(i).state.active_signals, m.signal_mask)
        &&& self.is_group(g)
        &&& self.group(g).state.signaled_objects@.contains(i as usize) == m.is_signaled
        &&& self.group(g).state.unsignaled_objects@.contains(i as usize) == !m.is_signaled
    }

    pub open spec fn slot_wf(&self, i: int) -> bool {
        match self.objects@[i] {
            KernelObject::WaitGroup(g) => {
                &&& g.wf()
                &&& forall|k: int|
                    0 <= k < g.state.signaled_objects@.len() ==> self.enrolled(
                        i,
                        #[trigger] g.state.signaled_objects@[k] as int,
                        true,
                    )
                &&& forall|k: int|
                    0 <= k < g.state.unsignaled_objects@.len() ==> self.enrolled(
                        i,
                        #[trigger] g.state.unsignaled_objects@[k] as int,
                        false,
                    )
            },
            _ => {
                &&& self.base(i).wf()
                &&& match self.member(i) {
                    None => true,
                    Some(m) => self.member_linked(i, m),
                }
            },
        }
    }

    /// Every object is consistent with every other: each member is linked
    /// in exactly one list of the group its record names, and each group
    /// lists only objects whose record names it.
    pub open spec fn wf(&self) -> bool {
        forall|i: int| 0 <= i < self.len() ==> #[trigger] self.slot_wf(i)
    }

    /// Only the objects at `a` and `b` may differ between `self` and `t`.
    pub open spec fn same_except(&self, t: &Self, a: int, b: int) -> bool {
        &&& t.len() == self.len()
        &&& forall|i: int|
            0 <= i < self.len() && i != a && i != b ==> #[trigger] t.objects@[i]
                == self.objects@[i]
    }

    pub fn new() -> (r: StaticObjectTable)
        ensures
            r.wf(),
            r.len() == 0,
    {
        StaticObjectTable { objects: Vec::new() }
    }

    /// Adds a fresh object of `kind` and returns its handle; fails with
    /// `ResourceExhausted` when every handle is taken.
    pub fn add_object(&mut self, kind: ObjectKind) -> (r: Result<u32, Error>)
        requires
            old(self).wf(),
        ensures
            final(self).wf(),
            old(self).len() > u32::MAX ==> r == Err::<u32, Error>(Error::ResourceExhausted)
                && *final(self) == *old(self),
            old(self).len() <= u32::MAX ==> {
                &&& r == Ok::<u32, Error>(old(self).len() as u32)
                &&& final(self).len() == old(self).len() + 1
                &&& forall|i: int|
                    0 <= i < old(self).len() ==> #[trigger] final(self).objects@[i]
                        == old(self).objects@[i]
                &&& kind == ObjectKind::WaitGroup ==> final(self).is_group(old(self).len())
                    && final(self).group(old(self).len()).has_no_members()
                    && final(self).group(old(self).len()).state.waiters.entries@.len() == 0
                &&& kind != ObjectKind::WaitGroup ==> final(self).has_base(old(self).len())
                    && final(self).member(old(self).len()) is None
                    && final(self).base(old(self).len()).state.active_signals.bits == 0
                    && final(self).base(old(self).len()).state.waiters.entries@.len() == 0
                &&& kind == ObjectKind::Channel ==> final(self).objects@[old(self).len()] is Channel
                &&& kind == ObjectKind::Interrupt ==> final(self).objects@[old(self).len()] is Interrupt
            },
    {
        if self.objects.len() > u32::MAX as usize {
            return Err(Error::ResourceExhausted);
        }
        let handle = self.objects.len() as u32;
        let object = match kind {
            ObjectKind::Channel => KernelObject::Channel(ObjectBase::new()),
            ObjectKind::Interrupt => KernelObject::Interrupt(ObjectBase::new()),
            ObjectKind::WaitGroup => KernelObject::WaitGroup(WaitGroupObject::new()),
        };
        let ghost before = *self;
        self.objects.push(object);
        proof {
            assert forall|i: int| 0 <= i < self.len() implies #[trigger] self.slot_wf(i) by {
                if i < before.len() {
                    assert(before.slot_wf(i));
                    assert(self.objects@[i] == before.objects@[i]);
                    match self.objects@[i] {
                        KernelObject::WaitGroup(g) => {
                            assert forall|k: int|
                                0 <= k < g.state.signaled_objects@.len() implies self.enrolled(
                                i,
                                #[trigger] g.state.signaled_objects@[k] as int,
                                true,
                            ) by {
                                assert(before.enrolled(i, g.state.signaled_objects@[k] as int, true));
                            }
                            assert forall|k: int|
                                0 <= k < g.state.unsignaled_objects@.len() implies self.enrolled(
                                i,
                                #[trigger] g.state.unsignaled_objects@[k] as int,
                                false,
                            ) by {
                                assert(before.enrolled(i, g.state.unsignaled_objects@[k] as int, false));
                            }
                        },
                        _ => {},
                    }
                }
            }
        }
        Ok(handle)
    }
}


/// The object at `h` may have changed in its waiters alone: its kind, its
/// signals, its wait-group record and, for a group, its member lists are as
/// they were.
pub open spec fn links_same(t0: &StaticObjectTable, t1: &StaticObjectTable, h: int) -> bool {
    &&& t0.same_except(t1, h, h)
    &&& 0 <= h < t0.len()
    &&& t0.has_base(h) ==> {
        &&& t1.has_base(h)
        &&& t1.base(h).state.active_signals == t0.base(h).state.active_signals
        &&& t1.member(h) == t0.member(h)
        &&& t1.base(h).wf()
    }
    &&& t0.is_group(h) ==> {
        &&& t1.is_group(h)
        &&& t1.group(h).state.signaled_objects@ == t0.group(h).state.signaled_objects@
        &&& t1.group(h).state.unsignaled_objects@ == t0.group(h).state.unsignaled_objects@
        &&& t1.group(h).wf()
    }
}

/// A change to one object's waiters alone keeps the table consistent.
proof fn lemma_links_same(t0: &StaticObjectTable, t1: &StaticObjectTable, h: int)
    requires
        t0.wf(),
        links_same(t0, t1, h),
    ensures
        t1.wf(),
{
    assert forall|j: int| 0 <= j < t0.len() implies {
        &&& t1.has_base(j) == t0.has_base(j)
        &&& t1.is_group(j) == t0.is_group(j)
        &&& t0.has_base(j) ==> t1.member(j) == t0.member(j) && t1.base(j).state.active_signals
            == t0.base(j).state.active_signals
        &&& t0.is_group(j) ==> t1.group(j).state.signaled_objects@ == t0.group(
            j,
        ).state.signaled_objects@ && t1.group(j).state.unsignaled_objects@ == t0.group(
            j,
        ).state.unsignaled_objects@
    } by {
        if j != h {
            assert(t1.objects@[j] == t0.objects@[j]);
        }
    }
    assert forall|i: int| 0 <= i < t1.len() implies #[trigger] t1.slot_wf(i) by {
        assert(t0.slot_wf(i));
        if i != h {
            assert(t1.objects@[i] == t0.objects@[i]);
        }
        if t1.is_group(i) {
            let g = t1.group(i);
            assert forall|k: int| 0 <= k < g.state.signaled_objects@.len() implies t1.enrolled(
                i,
                #[trigger] g.state.signaled_objects@[k] as int,
                true,
            ) by {
                assert(t0.enrolled(i, g.state.signaled_objects@[k] as int, true));
            }
            assert forall|k: int| 0 <= k < g.state.unsignaled_objects@.len() implies t1.enrolled(
                i,
                #[trigger] g.state.unsignaled_objects@[k] as int,
                false,
            ) by {
                assert(t0.enrolled(i, g.state.unsignaled_objects@[k] as int, false));
            }
        } else {
            match t1.member(i) {
                None => {},
                Some(m) => {
                    assert(t0.member_linked(i, m));
                },
            }
        }
    }
}

impl ObjectTable for StaticObjectTable {
    open spec fn lookup(&self, handle: u32) -> Option<KernelObject> {
        if (handle as int) < self.len() {
            Some(self.objects@[handle as int])
        } else {
            None
        }
    }

    fn get_object(&self, handle: u32) -> (r: Option<&KernelObject>) {
        if (handle as usize) < self.objects.len() {
            Some(&self.objects[handle as usize])
        } else {
            None
        }
    }
}

impl StaticObjectTable {
    /// Starts a wait on the object `handle` for any of `signal_mask`.
    ///
    /// An object with a base returns at once with its active signals and
    /// `user_data` 0 when one of `signal_mask` is active, and otherwise parks
    /// a waiter on itself. A wait group with no members fails with
    /// `InvalidArgument`; one with a signaled member returns at once with the
    /// most recently signaled member's `user_data` and active signals; one
    /// with none parks a waiter on the group. An unknown handle fails with
    /// `InvalidArgument`.
    pub fn object_wait(&mut self, handle: u32, signal_mask: Signals) -> (r: Result<WaitStart, Error>)
        requires
            old(self).wf(),
        ensures
            final(self).wf(),
            handle as int >= old(self).len() ==> r == Err::<WaitStart, Error>(Error::InvalidArgument)
                && *final(self) == *old(self),
            old(self).has_base(handle as int) ==> {
                let b0 = old(self).base(handle as int);
                let b1 = final(self).base(handle as int);
                &&& links_same(old(self), final(self), handle as int)
                &&& final(self).objects@[handle as int] == with_base(old(self).objects@[handle as int], b1)
                &&& intersects(b0.state.active_signals, signal_mask) ==> r == Ok::<WaitStart, Error>(
                    WaitStart::Ready(WaitReturn { pending_signals: b0.state.active_signals, user_data: 0 }),
                ) && *final(self) == *old(self)
                &&& !intersects(b0.state.active_signals, signal_mask) ==> parked(
                    b0.state.waiters,
                    b1.state.waiters,
                    signal_mask,
                    r,
                )
            },
            old(self).is_group(handle as int) ==> {
                let g0 = old(self).group(handle as int);
                let g1 = final(self).group(handle as int);
                &&& g0.has_no_members() ==> r == Err::<WaitStart, Error>(Error::InvalidArgument)
                    && *final(self) == *old(self)
                &&& g0.state.signaled_objects@.len() > 0 ==> {
                    let x = g0.state.signaled_objects@[0] as int;
                    &&& r == Ok::<WaitStart, Error>(
                        WaitStart::Ready(
                            WaitReturn {
                                pending_signals: old(self).base(x).state.active_signals,
                                user_data: old(self).member(x)->Some_0.user_data,
                            },
                        ),
                    )
                    &&& *final(self) == *old(self)
                }
                &&& !g0.has_no_members() && g0.state.signaled_objects@.len() == 0 ==> {
                    &&& links_same(old(self), final(self), handle as int)
                    &&& parked(g0.state.waiters, g1.state.waiters, signal_mask, r)
                }
            },
    {
        let h = handle as usize;
        if h >= self.objects.len() {
            return Err(Error::InvalidArgument);
        }
        let ghost t0 = *self;
        let ready: Option<WaitReturn> = match &self.objects[h] {
            KernelObject::WaitGroup(g) => {
                if !g.has_members() {
                    return Err(Error::InvalidArgument);
                }
                match g.peek_signaled() {
                    Some(x) => {
                        proof {
                            assert(t0.slot_wf(h as int));
                            assert(t0.enrolled(h as int, x as int, true));
                        }
                        let x_base = self.objects[x].base().unwrap();
                        let member = x_base.state.wait_group.unwrap();
                        Some(
                            WaitReturn {
                                pending_signals: x_base.state.active_signals,
                                user_data: member.user_data,
                            },
                        )
                    },
                    None => None,
                }
            },
            KernelObject::Channel(b) | KernelObject::Interrupt(b) => {
                if b.state.active_signals.intersects(signal_mask) {
                    Some(WaitReturn { pending_signals: b.state.active_signals, user_data: 0 })
                } else {
                    None
                }
            },
        };
        if let Some(w) = ready {
            proof {
                assert(t0.slot_wf(h as int));
            }
            return Ok(WaitStart::Ready(w));
        }
        proof {
            assert(t0.slot_wf(h as int));
        }
        let r = match &mut self.objects[h] {
            KernelObject::Channel(b) => b.wait_until(signal_mask),
            KernelObject::Interrupt(b) => b.wait_until(signal_mask),
            KernelObject::WaitGroup(g) => crate::object::park(&mut g.state.waiters, signal_mask),
        };
        proof {
            lemma_links_same(&t0, self, h as int);
        }
        r
    }

    /// Whether the waiter under `key` on the object `handle` has had its
    /// event fired.
    pub fn waiter_signaled(&self, handle: u32, key: u64) -> (r: bool)
        ensures
            r == ((handle as int) < self.len() && exists|j: int|
                0 <= j < self.waiters_of(handle as int).entries@.len()
                    && self.waiters_of(handle as int).entries@[j].key == key
                    && self.waiters_of(handle as int).entries@[j].signaled),
    {
        let h = handle as usize;
        if h >= self.objects.len() {
            return false;
        }
        match &self.objects[h] {
            KernelObject::WaitGroup(g) => g.state.waiters.is_signaled(key),
            KernelObject::Channel(b) => b.state.waiters.is_signaled(key),
            KernelObject::Interrupt(b) => b.state.waiters.is_signaled(key),
        }
    }

    pub fn has_waiter(&self, handle: u32, key: u64) -> (r: bool)
        ensures
            r == ((handle as int) < self.len() && self.waiters_of(handle as int).has_key(key)),
    {
        let h = handle as usize;
        if h >= self.objects.len() {
            return false;
        }
        match &self.objects[h] {
            KernelObject::WaitGroup(g) => g.state.waiters.contains_key(key),
            KernelObject::Channel(b) => b.has_waiter(key),
            KernelObject::Interrupt(b) => b.has_waiter(key),
        }
    }
}


/// The lists of every group, read as sets of members: each one lists only
/// objects enrolled in it with the matching flag.
pub open spec fn lists_enrolled(t: &StaticObjectTable) -> bool {
    &&& forall|i: int, x: usize|
        t.is_group(i) && #[trigger] t.group(i).state.signaled_objects@.contains(x) ==> t.enrolled(
            i,
            x as int,
            true,
        )
    &&& forall|i: int, x: usize|
        t.is_group(i) && #[trigger] t.group(i).state.unsignaled_objects@.contains(x)
            ==> t.enrolled(i, x as int, false)
}

/// Each object on its own: its waiters and lists are well formed, and a
/// member record agrees with the group it names.
pub open spec fn slots_local(t: &StaticObjectTable) -> bool {
    forall|i: int|
        0 <= i < t.len() ==> (#[trigger] t.objects@[i] is WaitGroup ==> t.group(i).wf()) && (
        !(t.objects@[i] is WaitGroup) ==> t.base(i).wf() && (t.member(i) is Some ==> t.member_linked(
            i,
            t.member(i)->Some_0,
        )))
}

proof fn lemma_wf_elim(t: &StaticObjectTable)
    requires
        t.wf(),
    ensures
        lists_enrolled(t),
        slots_local(t),
{
    assert forall|i: int, x: usize|
        t.is_group(i) && #[trigger] t.group(i).state.signaled_objects@.contains(x) implies t.enrolled(
        i,
        x as int,
        true,
    ) by {
        assert(t.slot_wf(i));
        let k = choose|k: int|
            0 <= k < t.group(i).state.signaled_objects@.len()
                && t.group(i).state.signaled_objects@[k] == x;
        assert(t.group(i).state.signaled_objects@[k] == x);
    }
    assert forall|i: int, x: usize|
        t.is_group(i) && #[trigger] t.group(i).state.unsignaled_objects@.contains(x)
            implies t.enrolled(i, x as int, false) by {
        assert(t.slot_wf(i));
        let k = choose|k: int|
            0 <= k < t.group(i).state.unsignaled_objects@.len()
                && t.group(i).state.unsignaled_objects@[k] == x;
        assert(t.group(i).state.unsignaled_objects@[k] == x);
    }
    assert forall|i: int| 0 <= i < t.len() implies (#[trigger] t.objects@[i] is WaitGroup
        ==> t.group(i).wf()) && (!(t.objects@[i] is WaitGroup) ==> t.base(i).wf() && (
    t.member(i) is Some ==> t.member_linked(i, t.member(i)->Some_0))) by {
        assert(t.slot_wf(i));
    }
}

proof fn lemma_wf_intro(t: &StaticObjectTable)
    requires
        lists_enrolled(t),
        slots_local(t),
    ensures
        t.wf(),
{
    assert forall|i: int| 0 <= i < t.len() implies #[trigger] t.slot_wf(i) by {
        if t.objects@[i] is WaitGroup {
            let g = t.group(i);
            assert forall|k: int| 0 <= k < g.state.signaled_objects@.len() implies t.enrolled(
                i,
                #[trigger] g.state.signaled_objects@[k] as int,
                true,
            ) by {
                assert(g.state.signaled_objects@.contains(g.state.signaled_objects@[k]));
            }
            assert forall|k: int| 0 <= k < g.state.unsignaled_objects@.len() implies t.enrolled(
                i,
                #[trigger] g.state.unsignaled_objects@[k] as int,
                false,
            ) by {
                assert(g.state.unsignaled_objects@.contains(g.state.unsignaled_objects@[k]));
            }
        }
    }
}

/// `t1` is `t0` after the object at `h` took `active` as its active
/// signals: its local waiters are woken, its member record follows the new
/// signals, and the group it is enrolled in (if any) moves it between its
/// lists and, when it has just become signaled, wakes the group's
/// `READABLE` waiters with the member's `user_data`.
pub open spec fn signaled(t0: &StaticObjectTable, t1: &StaticObjectTable, h: int, active: Signals) -> bool {
    let b0 = t0.base(h);
    let b1 = t1.base(h);
    &&& t1.len() == t0.len()
    &&& t1.has_base(h)
    &&& t1.objects@[h] == with_base(t0.objects@[h], b1)
    &&& b1.state.active_signals == active
    &&& t1.member(h) == ObjectBase::member_after(t0.member(h), active)
    &&& all_woken(b0.state.waiters, b1.state.waiters, active, 0)
    &&& match t0.member(h) {
        None => t0.same_except(t1, h, h),
        Some(m) => {
            let g = m.wait_group as int;
            let now = intersects(active, m.signal_mask);
            let g0 = t0.group(g);
            let g1 = t1.group(g);
            &&& t0.same_except(t1, h, g)
            &&& t1.is_group(g)
            &&& now && !m.is_signaled ==> g1.state.signaled_objects@
                == g0.state.signaled_objects@.insert(0, h as usize)
                && g1.state.unsignaled_objects@ == without(g0.state.unsignaled_objects@, h as usize)
            &&& !now && m.is_signaled ==> g1.state.unsignaled_objects@
                == g0.state.unsignaled_objects@.insert(0, h as usize)
                && g1.state.signaled_objects@ == without(g0.state.signaled_objects@, h as usize)
            &&& now == m.is_signaled ==> g1.state.signaled_objects@ == g0.state.signaled_objects@
                && g1.state.unsignaled_objects@ == g0.state.unsignaled_objects@
            &&& now && !m.is_signaled ==> all_woken(
                g0.state.waiters,
                g1.state.waiters,
                readable(),
                m.user_data,
            )
            &&& !(now && !m.is_signaled) ==> g1.state.waiters == g0.state.waiters
        },
    }
}

/// The lists of the group at `g` are those of `t0` but for `h`, which is
/// in the signaled list exactly when `now` holds and else in the other.
pub open spec fn moved(t0: &StaticObjectTable, t1: &StaticObjectTable, g: int, h: int, now: bool) -> bool {
    &&& forall|x: usize|
        x as int != h ==> (#[trigger] t1.group(g).state.signaled_objects@.contains(x)
            == t0.group(g).state.signaled_objects@.contains(x))
    &&& forall|x: usize|
        x as int != h ==> (#[trigger] t1.group(g).state.unsignaled_objects@.contains(x)
            == t0.group(g).state.unsignaled_objects@.contains(x))
    &&& t1.group(g).state.signaled_objects@.contains(h as usize) == now
    &&& t1.group(g).state.unsignaled_objects@.contains(h as usize) == !now
}

proof fn lemma_signaled_wf(t0: &StaticObjectTable, t1: &StaticObjectTable, h: int, active: Signals)
    requires
        t0.wf(),
        t0.has_base(h),
        h <= u32::MAX,
        t0.len() <= usize::MAX,
        signaled(t0, t1, h, active),
        t1.base(h).wf(),
        t0.member(h) is Some ==> t1.group(t0.member(h)->Some_0.wait_group as int).wf(),
    ensures
        t1.wf(),
{
    lemma_wf_elim(t0);
    let gm: int = match t0.member(h) {
        Some(m) => m.wait_group as int,
        None => h,
    };
    if let Some(m) = t0.member(h) {
        assert(t0.member_linked(h, m));
        let g0 = t0.group(gm);
        let g1 = t1.group(gm);
        assert(g0.wf()) by {
            assert(t0.objects@[gm] is WaitGroup);
        }
        let now = intersects(active, m.signal_mask);
        if now && !m.is_signaled {
            lemma_insert_front(g0.state.signaled_objects@, h as usize);
            lemma_without(g0.state.unsignaled_objects@, h as usize);
        } else if !now && m.is_signaled {
            lemma_insert_front(g0.state.unsignaled_objects@, h as usize);
            lemma_without(g0.state.signaled_objects@, h as usize);
        }
        assert(moved(t0, t1, gm, h, now));
    }
    assert(t0.member(h) is Some ==> moved(
        t0,
        t1,
        gm,
        h,
        intersects(active, t0.member(h)->Some_0.signal_mask),
    ));
    assert forall|j: int| 0 <= j < t0.len() && j != h && j != gm implies t1.objects@[j]
        == t0.objects@[j] by {
        assert(t0.same_except(t1, h, gm));
    }
    assert forall|i: int, x: usize|
        t1.is_group(i) && #[trigger] t1.group(i).state.signaled_objects@.contains(x) implies t1.enrolled(
        i,
        x as int,
        true,
    ) by {
        if x as int != h {
            assert(t0.group(i).state.signaled_objects@.contains(x));
            assert(t0.enrolled(i, x as int, true));
            assert(t1.objects@[x as int] == t0.objects@[x as int]);
        } else {
            if i != gm {
                assert(t0.group(i).state.signaled_objects@.contains(x));
                assert(t0.enrolled(i, x as int, true));
            }
        }
    }
    assert forall|i: int, x: usize|
        t1.is_group(i) && #[trigger] t1.group(i).state.unsignaled_objects@.contains(x)
            implies t1.enrolled(i, x as int, false) by {
        if x as int != h {
            assert(t0.group(i).state.unsignaled_objects@.contains(x));
            assert(t0.enrolled(i, x as int, false));
            assert(t1.objects@[x as int] == t0.objects@[x as int]);
        } else {
            if i != gm {
                assert(t0.group(i).state.unsignaled_objects@.contains(x));
                assert(t0.enrolled(i, x as int, false));
            }
        }
    }
    assert forall|i: int| 0 <= i < t1.len() implies (#[trigger] t1.objects@[i] is WaitGroup
        ==> t1.group(i).wf()) && (!(t1.objects@[i] is WaitGroup) ==> t1.base(i).wf() && (
    t1.member(i) is Some ==> t1.member_linked(i, t1.member(i)->Some_0))) by {
        if i == h {
            if let Some(m) = t0.member(h) {
                assert(t1.member(h)->Some_0.wait_group == m.wait_group);
            }
        } else if i == gm {
            assert(t1.objects@[i] is WaitGroup);
        } else {
            assert(t1.objects@[i] == t0.objects@[i]);
            if let Some(mi) = t1.member(i) {
                if !(t1.objects@[i] is WaitGroup) {
                    assert(t0.member_linked(i, mi));
                    let gi = mi.wait_group as int;
                    if gi != gm {
                        assert(t1.objects@[gi] == t0.objects@[gi]);
                    } else {
                        assert(t1.group(gm).state.signaled_objects@.contains(i as usize)
                            == t0.group(gm).state.signaled_objects@.contains(i as usize));
                        assert(t1.group(gm).state.unsignaled_objects@.contains(i as usize)
                            == t0.group(gm).state.unsignaled_objects@.contains(i as usize));
                    }
                }
            }
        }
    }
    lemma_wf_intro(t1);
}

impl StaticObjectTable {
    /// Ends the wait parked under `key` on the object `handle`, once its
    /// event returned `event_result`: the waiter leaves the list, then its
    /// outcome is read.
    pub fn finish_wait(&mut self, handle: u32, key: u64, event_result: Result<(), Error>) -> (r: Result<WaitReturn, Error>)
        requires
            old(self).wf(),
            (handle as int) < old(self).len(),
            old(self).waiters_of(handle as int).has_key(key),
        ensures
            final(self).wf(),
            links_same(old(self), final(self), handle as int),
            old(self).has_base(handle as int) ==> final(self).objects@[handle as int] == with_base(
                old(self).objects@[handle as int],
                final(self).base(handle as int),
            ),
            unparked(
                old(self).waiters_of(handle as int),
                final(self).waiters_of(handle as int),
                key,
                event_result,
                r,
            ),
    {
        let ghost t0 = *self;
        proof {
            assert(t0.slot_wf(handle as int));
        }
        let h = handle as usize;
        let r = match &mut self.objects[h] {
            KernelObject::Channel(b) => b.finish_wait(key, event_result),
            KernelObject::Interrupt(b) => b.finish_wait(key, event_result),
            KernelObject::WaitGroup(g) => crate::object::unpark(&mut g.state.waiters, key, event_result),
        };
        proof {
            lemma_links_same(&t0, self, h as int);
        }
        r
    }

    /// Makes `active_signals` the active signals of the object `handle` and
    /// carries the change to its waiters and to the group it is enrolled in.
    pub fn signal_impl(&mut self, handle: u32, active_signals: Signals)
        requires
            old(self).wf(),
            old(self).has_base(handle as int),
        ensures
            final(self).wf(),
            signaled(old(self), final(self), handle as int, active_signals),
    {
        let ghost t0 = *self;
        let len = self.objects.len();
        proof {
            assert(t0.slot_wf(handle as int));
            assert(t0.len() == len);
        }
        let h = handle as usize;
        let previous = match &mut self.objects[h] {
            KernelObject::Channel(b) => b.signal_impl(active_signals),
            KernelObject::Interrupt(b) => b.signal_impl(active_signals),
            KernelObject::WaitGroup(_) => None,
        };
        match previous {
            None => {},
            Some(m) => {
                let now = active_signals.intersects(m.signal_mask);
                let gi = m.wait_group;
                proof {
                    assert(t0.member_linked(h as int, m));
                    assert(t0.slot_wf(gi as int));
                    assert(self.objects@[gi as int] == t0.objects@[gi as int]);
                }
                match &mut self.objects[gi] {
                    KernelObject::WaitGroup(g) => g.member_signal(h, m.is_signaled, now, m.user_data),
                    _ => {},
                }
            },
        }
        proof {
            lemma_signaled_wf(&t0, self, h as int, active_signals);
        }
    }

    /// Replaces the active signals of the object `handle` with `update_fn`
    /// of them, then proceeds as `signal_impl`.
    pub fn signal<F: Fn(Signals) -> Signals>(&mut self, handle: u32, update_fn: F)
        requires
            old(self).wf(),
            old(self).has_base(handle as int),
            update_fn.requires((old(self).base(handle as int).state.active_signals,)),
        ensures
            final(self).wf(),
            update_fn.ensures(
                (old(self).base(handle as int).state.active_signals,),
                final(self).base(handle as int).state.active_signals,
            ),
            signaled(
                old(self),
                final(self),
                handle as int,
                final(self).base(handle as int).state.active_signals,
            ),
    {
        let active = match &self.objects[handle as usize] {
            KernelObject::Channel(b) => b.state.active_signals,
            KernelObject::Interrupt(b) => b.state.active_signals,
            KernelObject::WaitGroup(_) => Signals::new(),
        };
        let active_signals = update_fn(active);
        self.signal_impl(handle, active_signals);
    }
}


/// The lists of the group at `g` are those of `t0` but for `h`, which is in
/// the signaled list exactly when `in_signaled` holds and in the other
/// exactly when `in_unsignaled` holds.
pub open spec fn relisted(
    t0: &StaticObjectTable,
    t1: &StaticObjectTable,
    g: int,
    h: int,
    in_signaled: bool,
    in_unsignaled: bool,
) -> bool {
    &&& forall|x: usize|
        x as int != h ==> (#[trigger] t1.group(g).state.signaled_objects@.contains(x)
            == t0.group(g).state.signaled_objects@.contains(x))
    &&& forall|x: usize|
        x as int != h ==> (#[trigger] t1.group(g).state.unsignaled_objects@.contains(x)
            == t0.group(g).state.unsignaled_objects@.contains(x))
    &&& t1.group(g).state.signaled_objects@.contains(h as usize) == in_signaled
    &&& t1.group(g).state.unsignaled_objects@.contains(h as usize) == in_unsignaled
}

/// Enrolling the object at `h` in the group at `g`, or taking it out,
/// keeps the table consistent when the record and the lists change together.
proof fn lemma_relinked_wf(t0: &StaticObjectTable, t1: &StaticObjectTable, g: int, h: int)
    requires
        t0.wf(),
        t0.has_base(h),
        t0.is_group(g),
        h <= u32::MAX,
        t0.len() <= usize::MAX,
        t0.same_except(t1, h, g),
        t1.has_base(h),
        t1.base(h).wf(),
        t1.base(h).state.active_signals == t0.base(h).state.active_signals,
        t1.is_group(g),
        t1.group(g).wf(),
        relisted(
            t0,
            t1,
            g,
            h,
            t1.member(h) matches Some(m1) && m1.is_signaled,
            t1.member(h) matches Some(m1) && !m1.is_signaled,
        ),
        t1.member(h) is Some ==> t1.member(h)->Some_0.wait_group == g
            && t1.member(h)->Some_0.is_signaled == intersects(
            t1.base(h).state.active_signals,
            t1.member(h)->Some_0.signal_mask,
        ),
        t0.member(h) is Some ==> t0.member(h)->Some_0.wait_group == g,
    ensures
        t1.wf(),
{
    lemma_wf_elim(t0);
    assert forall|i: int, x: usize|
        t1.is_group(i) && #[trigger] t1.group(i).state.signaled_objects@.contains(x) implies t1.enrolled(
        i,
        x as int,
        true,
    ) by {
        if x as int != h {
            assert(t0.group(i).state.signaled_objects@.contains(x));
            assert(t0.enrolled(i, x as int, true));
            assert(t1.objects@[x as int] == t0.objects@[x as int]);
        } else {
            if i != g {
                assert(t1.objects@[i] == t0.objects@[i]);
                assert(t0.group(i).state.signaled_objects@.contains(x));
                assert(t0.enrolled(i, x as int, true));
            }
        }
    }
    assert forall|i: int, x: usize|
        t1.is_group(i) && #[trigger] t1.group(i).state.unsignaled_objects@.contains(x)
            implies t1.enrolled(i, x as int, false) by {
        if x as int != h {
            assert(t0.group(i).state.unsignaled_objects@.contains(x));
            assert(t0.enrolled(i, x as int, false));
            assert(t1.objects@[x as int] == t0.objects@[x as int]);
        } else {
            if i != g {
                assert(t1.objects@[i] == t0.objects@[i]);
                assert(t0.group(i).state.unsignaled_objects@.contains(x));
                assert(t0.enrolled(i, x as int, false));
            }
        }
    }
    assert forall|i: int| 0 <= i < t1.len() implies (#[trigger] t1.objects@[i] is WaitGroup
        ==> t1.group(i).wf()) && (!(t1.objects@[i] is WaitGroup) ==> t1.base(i).wf() && (
    t1.member(i) is Some ==> t1.member_linked(i, t1.member(i)->Some_0))) by {
        if i != h && i != g {
            assert(t1.objects@[i] == t0.objects@[i]);
            if let Some(mi) = t1.member(i) {
                if !(t1.objects@[i] is WaitGroup) {
                    assert(t0.member_linked(i, mi));
                    let gi = mi.wait_group as int;
                    if gi != g {
                        assert(t1.objects@[gi] == t0.objects@[gi]);
                    } else {
                        assert(t1.group(g).state.signaled_objects@.contains(i as usize)
                            == t0.group(g).state.signaled_objects@.contains(i as usize));
                        assert(t1.group(g).state.unsignaled_objects@.contains(i as usize)
                            == t0.group(g).state.unsignaled_objects@.contains(i as usize));
                    }
                }
            }
        }
    }
    lemma_wf_intro(t1);
}


/// `t1` and `r` are what `wait_group_add(group, member, signal_mask,
/// user_data)` makes of `t0`.
pub open spec fn added(
    t0: &StaticObjectTable,
    t1: &StaticObjectTable,
    group: u32,
    member: u32,
    signal_mask: Signals,
    user_data: usize,
    r: Result<(), Error>,
) -> bool {
    let g = group as int;
    let m = member as int;
    if g >= t0.len() || m >= t0.len() {
        r == Err::<(), Error>(Error::InvalidArgument) && *t1 == *t0
    } else if !t0.is_group(g) {
        r == Err::<(), Error>(Error::Unimplemented) && *t1 == *t0
    } else if !t0.has_base(m) {
        r == Err::<(), Error>(Error::InvalidArgument) && *t1 == *t0
    } else if t0.member(m) is Some {
        r == Err::<(), Error>(Error::ResourceExhausted) && *t1 == *t0
    } else {
        let is_signaled = intersects(t0.base(m).state.active_signals, signal_mask);
        let g0 = t0.group(g);
        let g1 = t1.group(g);
        &&& r == Ok::<(), Error>(())
        &&& t0.same_except(t1, m, g)
        &&& t1.has_base(m)
        &&& t1.objects@[m] == with_base(t0.objects@[m], t1.base(m))
        &&& t1.base(m).state.active_signals == t0.base(m).state.active_signals
        &&& t1.base(m).state.waiters == t0.base(m).state.waiters
        &&& t1.member(m) == Some(
            WaitGroupMember { signal_mask, user_data, wait_group: group as usize, is_signaled },
        )
        &&& t1.is_group(g)
        &&& g1.state.waiters == g0.state.waiters
        &&& is_signaled ==> g1.state.signaled_objects@ == g0.state.signaled_objects@.insert(
            0,
            member as usize,
        ) && g1.state.unsignaled_objects@ == g0.state.unsignaled_objects@
        &&& !is_signaled ==> g1.state.unsignaled_objects@ == g0.state.unsignaled_objects@.insert(
            0,
            member as usize,
        ) && g1.state.signaled_objects@ == g0.state.signaled_objects@
    }
}

/// `t1` and `r` are what `wait_group_remove(group, member)` makes of `t0`.
pub open spec fn removed(
    t0: &StaticObjectTable,
    t1: &StaticObjectTable,
    group: u32,
    member: u32,
    r: Result<(), Error>,
) -> bool {
    let g = group as int;
    let m = member as int;
    if g >= t0.len() || m >= t0.len() {
        r == Err::<(), Error>(Error::InvalidArgument) && *t1 == *t0
    } else if !t0.is_group(g) {
        r == Err::<(), Error>(Error::Unimplemented) && *t1 == *t0
    } else if !t0.has_base(m) {
        r == Err::<(), Error>(Error::InvalidArgument) && *t1 == *t0
    } else if t0.member(m) is None || t0.member(m)->Some_0.wait_group != group as usize {
        r == Err::<(), Error>(Error::NotFound) && *t1 == *t0
    } else {
        let is_signaled = t0.member(m)->Some_0.is_signaled;
        let g0 = t0.group(g);
        let g1 = t1.group(g);
        &&& r == Ok::<(), Error>(())
        &&& t0.same_except(t1, m, g)
        &&& t1.has_base(m)
        &&& t1.objects@[m] == with_base(t0.objects@[m], t1.base(m))
        &&& t1.base(m).state.active_signals == t0.base(m).state.active_signals
        &&& t1.base(m).state.waiters == t0.base(m).state.waiters
        &&& t1.member(m) is None
        &&& t1.is_group(g)
        &&& g1.state.waiters == g0.state.waiters
        &&& is_signaled ==> g1.state.signaled_objects@ == without(
            g0.state.signaled_objects@,
            member as usize,
        ) && g1.state.unsignaled_objects@ == g0.state.unsignaled_objects@
        &&& !is_signaled ==> g1.state.unsignaled_objects@ == without(
            g0.state.unsignaled_objects@,
            member as usize,
        ) && g1.state.signaled_objects@ == g0.state.signaled_objects@
    }
}

impl StaticObjectTable {
    /// Enrolls the object `member` in the wait group `group`: waits on the
    /// group then report `user_data` when one of `signal_mask` is active on
    /// the member.
    ///
    /// Fails with `InvalidArgument` for an unknown handle or a member that is
    /// itself a wait group, with `Unimplemented` when `group` is no wait
    /// group, and with `ResourceExhausted` when the member is already
    /// enrolled somewhere. A member already active for its mask goes
    /// straight to the group's signaled list.
    pub fn wait_group_add(
        &mut self,
        group: u32,
        member: u32,
        signal_mask: Signals,
        user_data: usize,
    ) -> (r: Result<(), Error>)
        requires
            old(self).wf(),
        ensures
            final(self).wf(),
            added(old(self), final(self), group, member, signal_mask, user_data, r),
    {
        let len = self.objects.len();
        let g = group as usize;
        let m = member as usize;
        if g >= len || m >= len {
            return Err(Error::InvalidArgument);
        }
        match &self.objects[g] {
            KernelObject::WaitGroup(_) => {},
            _ => {
                return Err(Error::Unimplemented);
            },
        }
        let (active, enrolled) = match &self.objects[m] {
            KernelObject::Channel(b) | KernelObject::Interrupt(b) => (
                b.state.active_signals,
                b.state.wait_group.is_some(),
            ),
            KernelObject::WaitGroup(_) => {
                return Err(Error::InvalidArgument);
            },
        };
        if enrolled {
            return Err(Error::ResourceExhausted);
        }
        let ghost t0 = *self;
        proof {
            lemma_wf_elim(&t0);
            assert(t0.slot_wf(g as int));
            assert(t0.slot_wf(m as int));
            if t0.group(g as int).state.signaled_objects@.contains(m) {
                assert(t0.enrolled(g as int, m as int, true));
            }
            if t0.group(g as int).state.unsignaled_objects@.contains(m) {
                assert(t0.enrolled(g as int, m as int, false));
            }
        }
        let is_signaled = active.intersects(signal_mask);
        let record = WaitGroupMember { signal_mask, user_data, wait_group: g, is_signaled };
        match &mut self.objects[m] {
            KernelObject::Channel(b) => {
                b.state.wait_group = Some(record);
            },
            KernelObject::Interrupt(b) => {
                b.state.wait_group = Some(record);
            },
            KernelObject::WaitGroup(_) => {},
        }
        match &mut self.objects[g] {
            KernelObject::WaitGroup(grp) => grp.link_member(m, is_signaled),
            _ => {},
        }
        proof {
            let g0 = t0.group(g as int);
            if is_signaled {
                lemma_insert_front(g0.state.signaled_objects@, m);
            } else {
                lemma_insert_front(g0.state.unsignaled_objects@, m);
            }
            lemma_relinked_wf(&t0, self, g as int, m as int);
        }
        Ok(())
    }

    /// Takes the object `member` out of the wait group `group`.
    ///
    /// Fails with `InvalidArgument` for an unknown handle or a member that is
    /// itself a wait group, with `Unimplemented` when `group` is no wait
    /// group, and with `NotFound` when the member is not enrolled in
    /// `group`; the table is then left as it was.
    pub fn wait_group_remove(&mut self, group: u32, member: u32) -> (r: Result<(), Error>)
        requires
            old(self).wf(),
        ensures
            final(self).wf(),
            removed(old(self), final(self), group, member, r),
    {
        let len = self.objects.len();
        let g = group as usize;
        let m = member as usize;
        if g >= len || m >= len {
            return Err(Error::InvalidArgument);
        }
        match &self.objects[g] {
            KernelObject::WaitGroup(_) => {},
            _ => {
                return Err(Error::Unimplemented);
            },
        }
        let record = match &self.objects[m] {
            KernelObject::Channel(b) | KernelObject::Interrupt(b) => b.state.wait_group,
            KernelObject::WaitGroup(_) => {
                return Err(Error::InvalidArgument);
            },
        };
        let record = match record {
            Some(rec) => rec,
            None => {
                return Err(Error::NotFound);
            },
        };
        if record.wait_group != g {
            return Err(Error::NotFound);
        }
        let ghost t0 = *self;
        proof {
            assert(t0.slot_wf(g as int));
            assert(t0.slot_wf(m as int));
            assert(t0.member_linked(m as int, record));
        }
        match &mut self.objects[m] {
            KernelObject::Channel(b) => {
                b.state.wait_group = None;
            },
            KernelObject::Interrupt(b) => {
                b.state.wait_group = None;
            },
            KernelObject::WaitGroup(_) => {},
        }
        match &mut self.objects[g] {
            KernelObject::WaitGroup(grp) => grp.unlink_member(m, record.is_signaled),
            _ => {},
        }
        proof {
            let g0 = t0.group(g as int);
            if record.is_signaled {
                lemma_without(g0.state.signaled_objects@, m);
            } else {
                lemma_without(g0.state.unsignaled_objects@, m);
            }
            lemma_relinked_wf(&t0, self, g as int, m as int);
        }
        Ok(())
    }
}


impl StaticObjectTable {
    /// Acknowledges the interrupt `handle`: clears the bits of `signal_mask`
    /// from its active signals, as a signal of the object.
    ///
    /// Fails with `InvalidArgument` for an unknown handle and with
    /// `Unimplemented` when the object is no interrupt.
    pub fn interrupt_ack(&mut self, handle: u32, signal_mask: Signals) -> (r: Result<(), Error>)
        requires
            old(self).wf(),
        ensures
            final(self).wf(),
            handle as int >= old(self).len() ==> r == Err::<(), Error>(Error::InvalidArgument)
                && *final(self) == *old(self),
            (handle as int) < old(self).len() && !(old(self).objects@[handle as int] is Interrupt)
                ==> r == Err::<(), Error>(Error::Unimplemented) && *final(self) == *old(self),
            (handle as int) < old(self).len() && old(self).objects@[handle as int] is Interrupt ==> {
                &&& r == Ok::<(), Error>(())
                &&& signaled(
                    old(self),
                    final(self),
                    handle as int,
                    Signals {
                        bits: old(self).base(handle as int).state.active_signals.bits
                            & !signal_mask.bits,
                    },
                )
            },
    {
        let h = handle as usize;
        if h >= self.objects.len() {
            return Err(Error::InvalidArgument);
        }
        let active = match &self.objects[h] {
            KernelObject::Interrupt(b) => b.state.active_signals,
            _ => {
                return Err(Error::Unimplemented);
            },
        };
        self.signal_impl(handle, active.difference(signal_mask));
        Ok(())
    }
}

} // verus!
