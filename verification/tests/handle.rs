use xarc::{Misuse, Xarc, XarcData};

#[test]
fn new_handle_yields_its_value() {
    let block = XarcData::new(42);
    let handle = Xarc::init(1, Some(&block));
    assert_eq!(handle.maybe_deref(), Some(&42));
    assert!(!handle.is_null());
    assert_eq!(handle.address(), 1);
}

#[test]
fn null_handle_yields_nothing() {
    let handle = Xarc::<i64>::null();
    assert_eq!(handle.maybe_deref(), None);
    assert!(handle.is_null());
    assert_eq!(handle.address(), 0);
}

#[test]
fn init_without_a_block_is_null() {
    let handle = Xarc::<i64>::init(0, None);
    assert!(handle.is_null());
    assert_eq!(handle, Xarc::null());
}

#[test]
fn handles_compare_by_block_not_by_value() {
    let first = XarcData::new(42);
    let second = XarcData::new(42);
    let xarc = Xarc::init(1, Some(&first));
    let same = xarc.clone().unwrap();
    let different = Xarc::init(2, Some(&second));
    assert!(!xarc.is_null());
    assert_ne!(xarc, Xarc::null());
    assert_eq!(xarc, same);
    assert_ne!(xarc, different);
    assert_eq!(xarc.maybe_deref().unwrap(), different.maybe_deref().unwrap());
    assert_eq!(Xarc::<i64>::null().maybe_deref(), None);
}

#[test]
fn clone_counts_and_reset_releases() {
    let block = XarcData::new(5);
    let mut first = Xarc::init(8, Some(&block));
    assert!(first.is_unique());
    let mut second = first.clone().unwrap();
    assert!(!first.is_unique());
    assert!(!second.is_unique());
    assert_eq!(second.address(), 8);
    assert_eq!(second.maybe_deref(), Some(&5));
    assert_eq!(first.reset(), None);
    assert!(first.is_null());
    assert_eq!(first.maybe_deref(), None);
    assert!(second.is_unique());
    assert_eq!(second.reset(), Some(8));
    assert!(second.is_null());
}

#[test]
fn resetting_null_releases_nothing() {
    let mut handle = Xarc::<i64>::null();
    assert_eq!(handle.reset(), None);
    assert!(handle.is_null());
    assert!(!handle.is_unique());
    assert_eq!(handle.clone().unwrap(), Xarc::null());
}

#[test]
fn cloning_a_released_handle_is_misuse() {
    let block = XarcData::new(5);
    let mut owner = Xarc::init(8, Some(&block));
    let dangling = Xarc::init(8, Some(&block));
    assert_eq!(owner.reset(), Some(8));
    assert_eq!(dangling.clone().err(), Some(Misuse));
}
