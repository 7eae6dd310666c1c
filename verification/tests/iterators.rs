use chunked_vec::ChunkedVec;

#[test]
fn test_into_iter() {
    let mut vec = ChunkedVec::new();
    vec.push(1);
    vec.push(2);
    vec.push(3);

    let mut iter = vec.into_iter();
    assert_eq!(iter.next(), Some(1));
    assert_eq!(iter.next(), Some(2));
    assert_eq!(iter.next(), Some(3));
    assert_eq!(iter.next(), None);
}

#[test]
fn test_iter() {
    let mut vec = ChunkedVec::new();
    vec.push(1);
    vec.push(2);
    vec.push(3);

    let mut iter = vec.iter();
    assert_eq!(iter.next(), Some(&1));
    assert_eq!(iter.next(), Some(&2));
    assert_eq!(iter.next(), Some(&3));
    assert_eq!(iter.next(), None);
}

#[test]
fn test_iter_mut() {
    let mut vec = ChunkedVec::new();
    vec.push(1);
    vec.push(2);
    vec.push(3);

    let mut iter = vec.iter_mut();
    assert_eq!(iter.next(), Some(&mut 1));
    assert_eq!(iter.next(), Some(&mut 2));
    let elem = iter.next();
    assert_eq!(elem, Some(&mut 3));
    *elem.unwrap() = 4;
    assert_eq!(iter.next(), None);
    assert_eq!(vec[2], 4);
}

#[test]
fn walks_work_in_for_loops() {
    let mut vec = ChunkedVec::new();
    for i in 0..130u32 {
        vec.push(i);
    }

    let mut sum = 0;
    for element in vec.iter() {
        sum += *element;
    }
    assert_eq!(sum, 129 * 130 / 2);

    let borrowed: Vec<u32> = vec.iter().copied().collect();
    let owned: Vec<u32> = vec.into_iter().collect();
    let expected: Vec<u32> = (0..130).collect();
    assert_eq!(borrowed, expected);
    assert_eq!(owned, expected);
}
