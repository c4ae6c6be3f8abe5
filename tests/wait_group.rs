use pw_kernel::{
    Error, KernelObject, ObjectKind, Signals, StaticObjectTable, WaitReturn, WaitStart,
};

fn readable() -> Signals {
    Signals::readable()
}

fn parked_key(r: Result<WaitStart, Error>) -> u64 {
    match r {
        Ok(WaitStart::Parked(k)) => k,
        other => panic!("expected a parked wait, got {:?}", other),
    }
}

fn group_lists(t: &StaticObjectTable, g: u32) -> (Vec<usize>, Vec<usize>) {
    match &t.objects[g as usize] {
        KernelObject::WaitGroup(grp) => (
            grp.state.signaled_objects.clone(),
            grp.state.unsignaled_objects.clone(),
        ),
        _ => panic!("not a wait group"),
    }
}

fn member_group(t: &StaticObjectTable, m: u32) -> Option<usize> {
    t.objects[m as usize].base().unwrap().state.wait_group.map(|rec| rec.wait_group)
}

/// A table with one group (0), two channels (1, 2) and a second group (3).
fn setup() -> StaticObjectTable {
    let mut t = StaticObjectTable::new();
    assert_eq!(t.add_object(ObjectKind::WaitGroup), Ok(0));
    assert_eq!(t.add_object(ObjectKind::Channel), Ok(1));
    assert_eq!(t.add_object(ObjectKind::Channel), Ok(2));
    assert_eq!(t.add_object(ObjectKind::WaitGroup), Ok(3));
    t
}

#[test]
fn wait_group_fan_in() {
    let mut t = setup();
    assert_eq!(t.wait_group_add(0, 1, readable(), 11), Ok(()));
    assert_eq!(t.wait_group_add(0, 2, readable(), 22), Ok(()));

    // A is signaled while the group is waited on.
    let k = parked_key(t.object_wait(0, readable()));
    t.signal(1, |_| Signals::readable());
    let r = t.finish_wait(0, k, Ok(())).unwrap();
    assert_eq!(r.user_data, 11);
    assert!(r.pending_signals.contains(readable()));
    t.signal(1, |_| Signals::new());

    // Then B.
    let k = parked_key(t.object_wait(0, readable()));
    t.signal(2, |_| Signals::readable());
    let r = t.finish_wait(0, k, Ok(())).unwrap();
    assert_eq!(r.user_data, 22);
    assert!(r.pending_signals.contains(readable()));
    t.signal(2, |_| Signals::new());

    // Then A again, this time before the wait starts.
    t.signal(1, |_| Signals::readable());
    assert_eq!(
        t.object_wait(0, readable()),
        Ok(WaitStart::Ready(WaitReturn { pending_signals: readable(), user_data: 11 }))
    );
}

#[test]
fn duplicate_enrollment() {
    let mut t = setup();
    assert_eq!(t.wait_group_add(0, 1, readable(), 11), Ok(()));
    assert_eq!(t.wait_group_add(3, 1, readable(), 3), Err(Error::ResourceExhausted));
    assert_eq!(member_group(&t, 1), Some(0));
    assert_eq!(group_lists(&t, 3), (vec![], vec![]));
}

#[test]
fn wrong_group_removal() {
    let mut t = setup();
    assert_eq!(t.wait_group_add(0, 1, readable(), 11), Ok(()));
    assert_eq!(t.wait_group_remove(3, 1), Err(Error::NotFound));
    assert_eq!(member_group(&t, 1), Some(0));
    assert_eq!(group_lists(&t, 0), (vec![], vec![1]));
    assert_eq!(t.wait_group_remove(0, 1), Ok(()));
}

#[test]
fn empty_group_wait() {
    let mut t = setup();
    assert_eq!(t.object_wait(0, readable()), Err(Error::InvalidArgument));
}

#[test]
fn nested_group_rejected() {
    let mut t = setup();
    assert_eq!(t.wait_group_add(0, 3, readable(), 0), Err(Error::InvalidArgument));
}

#[test]
fn remove_after_no_enrollment() {
    let mut t = setup();
    assert_eq!(t.wait_group_remove(0, 1), Err(Error::NotFound));
}

#[test]
fn remove_after_members_left() {
    let mut t = setup();
    assert_eq!(t.wait_group_add(0, 1, readable(), 11), Ok(()));
    assert_eq!(t.wait_group_add(0, 2, readable(), 22), Ok(()));
    assert_eq!(t.wait_group_remove(0, 2), Ok(()));
    assert_eq!(t.wait_group_remove(0, 1), Ok(()));
    assert_eq!(t.wait_group_remove(0, 1), Err(Error::NotFound));
    assert_eq!(t.object_wait(0, readable()), Err(Error::InvalidArgument));
}

#[test]
fn add_then_remove_restores_member() {
    let mut t = setup();
    assert_eq!(t.wait_group_add(0, 2, readable(), 5), Ok(()));
    assert_eq!(t.wait_group_add(0, 1, readable(), 7), Ok(()));
    assert_eq!(member_group(&t, 1), Some(0));
    assert_eq!(t.wait_group_remove(0, 1), Ok(()));
    assert_eq!(member_group(&t, 1), None);
    assert_eq!(group_lists(&t, 0), (vec![], vec![2]));
}

#[test]
fn active_member_enrolls_signaled() {
    let mut t = setup();
    t.signal(1, |_| Signals::readable());
    assert_eq!(t.wait_group_add(0, 1, readable(), 9), Ok(()));
    assert_eq!(group_lists(&t, 0), (vec![1], vec![]));
    assert_eq!(
        t.object_wait(0, readable()),
        Ok(WaitStart::Ready(WaitReturn { pending_signals: readable(), user_data: 9 }))
    );
}

#[test]
fn member_in_exactly_one_list() {
    let mut t = setup();
    assert_eq!(t.wait_group_add(0, 1, readable(), 1), Ok(()));
    assert_eq!(t.wait_group_add(0, 2, readable(), 2), Ok(()));
    t.signal(2, |_| Signals::readable());
    assert_eq!(group_lists(&t, 0), (vec![2], vec![1]));
    t.signal(1, |_| Signals::readable());
    assert_eq!(group_lists(&t, 0), (vec![1, 2], vec![]));
    t.signal(2, |_| Signals::new());
    assert_eq!(group_lists(&t, 0), (vec![1], vec![2]));
    assert_eq!(member_group(&t, 1), Some(0));
    assert_eq!(member_group(&t, 2), Some(0));
    let rec = t.objects[1].base().unwrap().state.wait_group.unwrap();
    assert!(rec.is_signaled);
}

#[test]
fn member_mask_not_met_stays_unsignaled() {
    let mut t = setup();
    assert_eq!(t.wait_group_add(0, 1, readable(), 1), Ok(()));
    let k = parked_key(t.object_wait(0, readable()));
    t.signal(1, |_| Signals::writeable());
    assert_eq!(group_lists(&t, 0), (vec![], vec![1]));
    assert_eq!(t.finish_wait(0, k, Err(Error::DeadlineExceeded)), Err(Error::DeadlineExceeded));
    assert!(!t.has_waiter(0, k));
}

#[test]
fn add_to_object_that_is_no_group() {
    let mut t = setup();
    assert_eq!(t.wait_group_add(1, 2, readable(), 0), Err(Error::Unimplemented));
    assert_eq!(t.wait_group_remove(1, 2), Err(Error::Unimplemented));
}

#[test]
fn unknown_handles() {
    let mut t = setup();
    assert_eq!(t.wait_group_add(9, 1, readable(), 0), Err(Error::InvalidArgument));
    assert_eq!(t.wait_group_add(0, 9, readable(), 0), Err(Error::InvalidArgument));
    assert_eq!(t.wait_group_remove(0, 9), Err(Error::InvalidArgument));
    assert_eq!(t.object_wait(9, readable()), Err(Error::InvalidArgument));
    assert_eq!(t.interrupt_ack(9, readable()), Err(Error::InvalidArgument));
}

#[test]
fn group_waiter_for_other_signals_not_woken() {
    let mut t = setup();
    assert_eq!(t.wait_group_add(0, 1, readable(), 4), Ok(()));
    let k = parked_key(t.object_wait(0, Signals::writeable()));
    t.signal(1, |_| Signals::readable());
    assert_eq!(t.finish_wait(0, k, Ok(())), Err(Error::Unknown));
}

#[test]
fn empty_signal_keeps_group_quiet() {
    let mut t = setup();
    assert_eq!(t.wait_group_add(0, 1, readable(), 4), Ok(()));
    let k = parked_key(t.object_wait(0, readable()));
    t.signal(1, |_| Signals::new());
    assert!(t.has_waiter(0, k));
    assert_eq!(group_lists(&t, 0), (vec![], vec![1]));
}
