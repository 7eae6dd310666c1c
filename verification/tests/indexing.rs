use chunked_vec::ChunkedVecSized;

#[test]
fn test_indexing() {
    let mut vec = ChunkedVecSized::<u8, 4>::new();

    vec.push(10);
    vec.push(20);
    vec.push(30);
    vec.push(40);
    vec.push(50);

    assert_eq!(vec[0], 10);
    assert_eq!(vec[1], 20);
    assert_eq!(vec[2], 30);
    assert_eq!(vec[3], 40);
    assert_eq!(vec[4], 50);

    vec[1] = 99;
    assert_eq!(vec[1], 99);

    assert_eq!(vec.len(), 5);
}

#[test]
fn test_get() {
    let mut vec = ChunkedVecSized::<i32, 4>::new();
    vec.push(1);
    vec.push(2);

    assert_eq!(vec.get(0), Some(&1));
    assert_eq!(vec.get(1), Some(&2));
    assert_eq!(vec.get(2), None);
}

#[test]
fn test_get_mut() {
    let mut vec = ChunkedVecSized::<i32, 4>::new();
    vec.push(1);
    vec.push(2);

    if let Some(x) = vec.get_mut(0) {
        *x = 10;
    }
    assert_eq!(vec[0], 10);
    assert_eq!(vec.get_mut(2), None);
}
