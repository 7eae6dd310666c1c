use chunked_vec::ChunkedVec;

#[test]
fn test_default() {
    let vec = ChunkedVec::<(), 64>::default();
    assert_eq!(vec.len(), 0);
}
