use maestro::errno::ENOMEM;
use maestro::id_allocator::IDAllocator;
use maestro::pid::{PIDManager, MAX_PID};

#[test]
fn pids_start_at_one() {
    let mut pids = PIDManager::new().unwrap();
    assert_eq!(pids.get_unique_pid(), Ok(1));
    assert_eq!(pids.get_unique_pid(), Ok(2));
    assert_eq!(pids.get_unique_pid(), Ok(3));
}

#[test]
fn released_pid_is_handed_out_again() {
    let mut pids = PIDManager::new().unwrap();
    for pid in 1..=5 {
        assert_eq!(pids.get_unique_pid(), Ok(pid));
    }
    pids.release_pid(4);
    pids.release_pid(2);
    assert_eq!(pids.get_unique_pid(), Ok(2));
    assert_eq!(pids.get_unique_pid(), Ok(4));
    assert_eq!(pids.get_unique_pid(), Ok(6));
}

#[test]
fn release_of_an_unused_pid_does_nothing() {
    let mut pids = PIDManager::new().unwrap();
    pids.release_pid(0);
    pids.release_pid(7);
    pids.release_pid(u16::MAX);
    assert_eq!(pids.get_unique_pid(), Ok(1));
}

#[test]
fn pids_run_out() {
    let mut pids = PIDManager::new().unwrap();
    let mut seen = vec![false; MAX_PID as usize + 1];
    for _ in 0..MAX_PID {
        let pid = pids.get_unique_pid().unwrap() as usize;
        assert!(1 <= pid && pid <= MAX_PID as usize && !seen[pid]);
        seen[pid] = true;
    }
    assert_eq!(pids.get_unique_pid(), Err(ENOMEM));
    pids.release_pid(MAX_PID);
    assert_eq!(pids.get_unique_pid(), Ok(MAX_PID));
}

#[test]
fn identifiers_are_allocated_from_the_lowest() {
    let mut ids = IDAllocator::new(2).unwrap();
    assert_eq!(ids.allocate(), Ok(0));
    assert_eq!(ids.allocate(), Ok(1));
    assert_eq!(ids.allocate(), Err(ENOMEM));
    ids.free(5);
    ids.free(0);
    assert_eq!(ids.allocate(), Ok(0));
}
