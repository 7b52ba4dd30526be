use array_try_map::ArrayExt;
use std::rc::Rc;

/// If the transform returns an error, the outputs already produced are
/// dropped before the call returns.
#[test]
fn drop_on_err() {
    let x = [0, 0, 0, 0, 255];
    let rc = Rc::new(());

    let _ = ArrayExt::try_map(x, |i| if i == 0 { Ok(rc.clone()) } else { Err(()) });

    assert_eq!(Rc::strong_count(&rc), 1);
}

/// On success the outputs are handed to the caller exactly once: they stay
/// alive in the result and die with it.
#[test]
fn drop_on_success_exactly_once() {
    let x = [0, 0, 0, 0];
    let rc = Rc::new(());

    let y: Result<[Rc<()>; 4], ()> = ArrayExt::try_map(x, |_i| Ok(rc.clone()));

    assert_eq!(Rc::strong_count(&rc), 5);
    drop(y);
    assert_eq!(Rc::strong_count(&rc), 1);
}

/// The source elements that the failure leaves behind are still dropped by
/// the caller's environment, not leaked by the mapping.
#[test]
fn source_elements_not_leaked_on_err() {
    let rc = Rc::new(());
    let x = [rc.clone(), rc.clone(), rc.clone()];

    let r: Result<[Rc<()>; 3], ()> = ArrayExt::try_map(x, |_h| Err(()));

    assert_eq!(r, Err(()));
    assert_eq!(Rc::strong_count(&rc), 1);
}
