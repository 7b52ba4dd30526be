use array_try_map::ArrayExt;

/// The transform does not run after an error occurs.
#[test]
fn short_circuit() {
    let mut counter = 0;

    let x = [0, 0, 0, 0];

    let _ = ArrayExt::try_map(x, |i| {
        if i == 0 {
            counter += 1;
            Ok(())
        } else {
            Err(())
        }
    });

    assert_eq!(counter, 4);

    counter = 0;

    let y = [0, 0, 255, 0, 0];

    let _ = ArrayExt::try_map(y, |i| {
        if i == 0 {
            counter += 1;
            Ok(())
        } else {
            Err(())
        }
    });

    assert_eq!(counter, 2);
}

#[test]
fn try_map_success() {
    let x: [u32; 3] = [1, 2, 3];
    let y = ArrayExt::try_map(x, |v: u32| v.checked_add(1).ok_or("overflow"));
    assert_eq!(y, Ok([2, 3, 4]));
}

#[test]
fn try_map_overflow_error() {
    let x = [1, 2, 3, u32::MAX];
    let y = ArrayExt::try_map(x, |v: u32| v.checked_add(1).ok_or("overflow"));
    assert_eq!(y, Err("overflow"));
}

/// With several failing elements, the error that comes back is the one
/// produced at the first failing index.
#[test]
fn first_error_wins() {
    let x = [1, 12, 13];
    let y: Result<[i32; 3], i32> =
        ArrayExt::try_map(x, |v| if v < 10 { Ok(v) } else { Err(v) });
    assert_eq!(y, Err(12));
}

/// A zero-length array maps to a zero-length array and the transform is
/// never invoked.
#[test]
fn try_map_empty() {
    let x: [u32; 0] = [];
    let y: Result<[u32; 0], ()> = ArrayExt::try_map(x, |_v| unreachable!());
    assert_eq!(y, Ok([]));
}
