use peregrine::errors::Error;
use peregrine::locks::SpinLock;

#[test]
fn defaults_unlocked() {
    let lock = SpinLock::new();
    assert_eq!(false, lock.is_locked());
}

#[test]
fn full_cycle() {
    let mut lock = SpinLock::new();
    assert_eq!(false, lock.is_locked());
    lock.acquire();
    assert_eq!(true, lock.is_locked());
    lock.release().expect("could not release lock");
    assert_eq!(false, lock.is_locked());
}

#[test]
fn error_on_release_unlocked() {
    let mut lock = SpinLock::new();
    assert!(lock.release().is_err());
}

#[test]
fn release_error_kind() {
    let mut lock = SpinLock::new();
    assert_eq!(Err(Error::NotLocked), lock.release());
    lock.acquire();
    assert_eq!(Ok(()), lock.release());
    assert_eq!(Err(Error::NotLocked), lock.release());
}

#[test]
fn wait_on_unlocked_returns() {
    let lock = SpinLock::new();
    lock.wait();
    assert_eq!(false, lock.is_locked());
}
