use pw_kernel::{
    Error, KernelObject, NullObjectTable, ObjectBase, ObjectKind, ObjectTable, Signals,
    StaticObjectTable, WaitResult, WaitReturn, WaitStart, WaiterList,
};

fn readable() -> Signals {
    Signals::readable()
}

#[test]
fn immediate_poll() {
    let mut o = ObjectBase::new();
    assert_eq!(o.signal(|_| Signals::readable()), None);
    assert_eq!(
        o.wait_until(readable()),
        Ok(WaitStart::Ready(WaitReturn { pending_signals: readable(), user_data: 0 }))
    );
    assert!(o.state.waiters.entries.is_empty());
}

#[test]
fn immediate_poll_reports_all_active_signals() {
    let mut o = ObjectBase::new();
    o.signal(|_| Signals::from_bits(3));
    assert_eq!(
        o.wait_until(readable()),
        Ok(WaitStart::Ready(WaitReturn { pending_signals: Signals::from_bits(3), user_data: 0 }))
    );
}

#[test]
fn wake_by_signal() {
    let mut o = ObjectBase::new();
    let k = match o.wait_until(readable()) {
        Ok(WaitStart::Parked(k)) => k,
        other => panic!("expected a parked wait, got {:?}", other),
    };
    assert!(o.has_waiter(k));
    o.signal(|_| Signals::readable());
    assert_eq!(
        o.finish_wait(k, Ok(())),
        Ok(WaitReturn { pending_signals: readable(), user_data: 0 })
    );
    assert!(!o.has_waiter(k));
}

#[test]
fn result_written_once() {
    let mut o = ObjectBase::new();
    let k = match o.wait_until(readable()) {
        Ok(WaitStart::Parked(k)) => k,
        other => panic!("expected a parked wait, got {:?}", other),
    };
    o.signal(|_| Signals::readable());
    o.signal(|_| Signals::from_bits(3));
    assert_eq!(
        o.finish_wait(k, Ok(())),
        Ok(WaitReturn { pending_signals: readable(), user_data: 0 })
    );
}

#[test]
fn signal_wakes_only_matching_waiters() {
    let mut o = ObjectBase::new();
    let ka = match o.wait_until(readable()) {
        Ok(WaitStart::Parked(k)) => k,
        other => panic!("unexpected {:?}", other),
    };
    let kb = match o.wait_until(Signals::writeable()) {
        Ok(WaitStart::Parked(k)) => k,
        other => panic!("unexpected {:?}", other),
    };
    assert_ne!(ka, kb);
    o.signal(|s| s.union(Signals::readable()));
    assert!(o.state.waiters.entries[0].signaled);
    assert!(!o.state.waiters.entries[1].signaled);
    assert_eq!(o.finish_wait(kb, Err(Error::DeadlineExceeded)), Err(Error::DeadlineExceeded));
    assert_eq!(
        o.finish_wait(ka, Ok(())),
        Ok(WaitReturn { pending_signals: readable(), user_data: 0 })
    );
}

#[test]
fn timeout_removes_waiter() {
    let mut o = ObjectBase::new();
    let k = match o.wait_until(readable()) {
        Ok(WaitStart::Parked(k)) => k,
        other => panic!("unexpected {:?}", other),
    };
    assert_eq!(o.finish_wait(k, Err(Error::Cancelled)), Err(Error::Cancelled));
    assert!(o.state.waiters.entries.is_empty());
}

#[test]
fn waiter_keys_run_out() {
    let mut l = WaiterList::new();
    assert_eq!(l.push_back(readable()), Ok(0));
    assert_eq!(l.push_back(readable()), Ok(1));
    l.next_key = u64::MAX;
    assert_eq!(l.push_back(readable()), Err(Error::ResourceExhausted));
    assert_eq!(l.entries.len(), 2);
    let w = l.remove_element(0);
    assert_eq!(w.key, 0);
    assert!(!l.contains_key(0));
    assert!(l.contains_key(1));
}

#[test]
fn wait_result_cell() {
    let mut c = WaitResult::new();
    assert_eq!(c.get(), Err(Error::Unknown));
    let v = WaitReturn { pending_signals: readable(), user_data: 4 };
    c.set(Ok(v));
    assert_eq!(c.get(), Ok(v));
}

#[test]
fn signal_sets() {
    let a = Signals::from_bits(0b0101);
    let b = Signals::from_bits(0b0110);
    assert!(a.intersects(b));
    assert!(!a.intersects(Signals::from_bits(0b1010)));
    assert_eq!(a.union(b).bits, 0b0111);
    assert_eq!(a.intersection(b).bits, 0b0100);
    assert_eq!(a.difference(b).bits, 0b0001);
    assert!(a.contains(Signals::from_bits(0b0100)));
    assert!(!a.contains(b));
    assert_eq!(Signals::new().bits, 0);
}

#[test]
fn interrupt_ack_clears_bits() {
    let mut t = StaticObjectTable::new();
    assert_eq!(t.add_object(ObjectKind::Interrupt), Ok(0));
    assert_eq!(t.add_object(ObjectKind::Channel), Ok(1));
    t.signal(0, |_| Signals::from_bits(3));
    assert_eq!(t.interrupt_ack(0, readable()), Ok(()));
    assert_eq!(t.objects[0].base().unwrap().state.active_signals.bits, 2);
    assert_eq!(t.interrupt_ack(1, readable()), Err(Error::Unimplemented));
}

#[test]
fn object_tables() {
    let null = NullObjectTable::new();
    assert!(null.get_object(0).is_none());
    let mut t = StaticObjectTable::new();
    assert_eq!(t.add_object(ObjectKind::Channel), Ok(0));
    assert!(matches!(t.get_object(0), Some(KernelObject::Channel(_))));
    assert!(t.get_object(1).is_none());
}
