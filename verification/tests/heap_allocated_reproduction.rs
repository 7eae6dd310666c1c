use chunked_vec::ChunkedVec;
use std::path::PathBuf;

#[test]
fn test_pathbuf_tuple_into_iter() {
    let mut data: ChunkedVec<(PathBuf, u64), 64> = ChunkedVec::new();

    // Push a large number of elements, across several chunks
    for i in 0..100 {
        data.push((PathBuf::from("/test"), i));
    }

    let mut count = 0;
    for (path, i) in data {
        assert_eq!(path, PathBuf::from("/test"));
        assert_eq!(i, count);
        count += 1;
    }

    assert_eq!(count, 100);
}

#[test]
fn test_pathbuf_tuple_into_iter_not_completely_consumed() {
    let mut data: ChunkedVec<(PathBuf, u64), 64> = ChunkedVec::new();

    // Push a large number of elements, across several chunks
    for i in 0..100 {
        data.push((PathBuf::from("/test"), i));
    }

    let mut iter = data.into_iter();
    for i in 0..50 {
        let (path, count) = iter.next().unwrap();
        assert_eq!(path, PathBuf::from("/test"));
        assert_eq!(i, count);
    }

    drop(iter);
}
