use chunked_vec::ChunkedVec;
use chunked_vec::ChunkedVecSized;
use std::cell::Cell;
use std::rc::Rc;

/// An element that counts how often one of its kind is destroyed.
struct Counted<'a> {
    id: usize,
    drops: &'a Cell<usize>,
}

impl Drop for Counted<'_> {
    fn drop(&mut self) {
        self.drops.set(self.drops.get() + 1);
    }
}

impl Clone for Counted<'_> {
    fn clone(&self) -> Self {
        Counted { id: self.id, drops: self.drops }
    }
}

fn contents<T: Clone, const N: usize>(vec: &ChunkedVec<T, N>) -> Vec<T> {
    let mut out = Vec::new();
    let mut iter = vec.iter();
    while let Some(item) = iter.next() {
        out.push(item.clone());
    }
    out
}

fn filled<const N: usize>(k: usize) -> ChunkedVec<usize, N> {
    let mut vec: ChunkedVec<usize, N> = ChunkedVecSized::new();
    for i in 0..k {
        vec.push(i * 10 + 1);
    }
    vec
}

fn check_pushes<const N: usize>(k: usize) {
    let vec = filled::<N>(k);
    assert_eq!(vec.len(), k);
    assert_eq!(vec.is_empty(), k == 0);
    for i in 0..k {
        assert_eq!(vec.get(i), Some(&(i * 10 + 1)));
        assert_eq!(vec[i], i * 10 + 1);
    }
    assert_eq!(vec.get(k), None);
    assert_eq!(vec.allocated_capacity(), N * ((k + N - 1) / N));
    assert!(vec.capacity() >= vec.allocated_capacity());
}

#[test]
fn pushes_give_length_order_and_allocation() {
    for k in 0..=13 {
        check_pushes::<1>(k);
        check_pushes::<2>(k);
        check_pushes::<3>(k);
        check_pushes::<4>(k);
        check_pushes::<64>(k);
    }
}

#[test]
fn allocation_grows_one_chunk_per_chunk_size_pushes() {
    let mut vec: ChunkedVec<u8, 4> = ChunkedVecSized::new();
    let expected = [0, 4, 4, 4, 4, 8, 8, 8, 8, 12];
    assert_eq!(vec.allocated_capacity(), expected[0]);
    for k in 1..10 {
        vec.push(k as u8);
        assert_eq!(vec.allocated_capacity(), expected[k]);
    }
}

#[test]
fn default_chunk_size_is_sixty_four() {
    assert_eq!(chunked_vec::DEFAULT_CHUNK_SIZE, 64);
    let mut vec = ChunkedVec::new();
    assert_eq!(vec.allocated_capacity(), 0);
    vec.push(7u32);
    assert_eq!(vec.allocated_capacity(), 64);
    for i in 0..64 {
        vec.push(i);
    }
    assert_eq!(vec.len(), 65);
    assert_eq!(vec.allocated_capacity(), 128);
}

#[test]
fn owning_walk_returns_the_pushed_values_in_order() {
    for k in [0usize, 1, 3, 4, 5, 8, 9] {
        let vec = filled::<4>(k);
        let mut iter = vec.into_iter();
        for i in 0..k {
            assert_eq!(iter.size_hint(), (k - i, Some(k - i)));
            assert_eq!(iter.next(), Some(i * 10 + 1));
        }
        assert_eq!(iter.size_hint(), (0, Some(0)));
        assert_eq!(iter.next(), None);
        assert_eq!(iter.next(), None);
    }
}

#[test]
fn remove_keeps_the_order_of_the_others() {
    let mut vec: ChunkedVec<i32, 3> = ChunkedVecSized::new();
    for i in 1..=6 {
        vec.push(i);
    }
    assert_eq!(vec.remove(2), 3);
    assert_eq!(vec.len(), 5);
    assert_eq!(contents(&vec), vec![1, 2, 4, 5, 6]);
    assert_eq!(vec.allocated_capacity(), 6);
}

#[test]
fn remove_at_every_index_matches_a_plain_vector() {
    for k in 1..=9usize {
        for index in 0..k {
            let mut vec = filled::<3>(k);
            let mut plain: Vec<usize> = (0..k).map(|i| i * 10 + 1).collect();
            assert_eq!(vec.remove(index), plain.remove(index));
            assert_eq!(vec.len(), k - 1);
            assert_eq!(contents(&vec), plain);
            assert_eq!(vec.allocated_capacity(), 3 * ((k - 1 + 2) / 3));
        }
    }
}

#[test]
fn swap_remove_moves_only_the_last_element() {
    let mut vec: ChunkedVec<&str, 3> = ChunkedVecSized::new();
    vec.push("foo");
    vec.push("bar");
    vec.push("baz");
    vec.push("qux");

    assert_eq!(vec.swap_remove(1), "bar");
    assert_eq!(contents(&vec), vec!["foo", "qux", "baz"]);
    assert!(vec.eq(&["foo", "qux", "baz"]));

    assert_eq!(vec.swap_remove(0), "foo");
    assert_eq!(contents(&vec), vec!["baz", "qux"]);
    assert!(vec.eq(&["baz", "qux"]));
}

#[test]
fn swap_remove_at_every_index_matches_a_plain_vector() {
    for k in 1..=9usize {
        for index in 0..k {
            let mut vec = filled::<3>(k);
            let before = vec.allocated_capacity();
            let mut plain: Vec<usize> = (0..k).map(|i| i * 10 + 1).collect();
            assert_eq!(vec.swap_remove(index), plain.swap_remove(index));
            assert_eq!(vec.len(), k - 1);
            assert_eq!(contents(&vec), plain);
            assert_eq!(vec.allocated_capacity(), before);
        }
    }
}

#[test]
fn shrinking_resize_destroys_the_tail_once() {
    let drops = Cell::new(0);
    let mut vec: ChunkedVec<Counted, 3> = ChunkedVecSized::new();
    for id in 0..7 {
        vec.push(Counted { id, drops: &drops });
    }
    assert_eq!(drops.get(), 0);

    vec.resize(4, Counted { id: 99, drops: &drops });
    // Three elements of the tail and the value that was handed in.
    assert_eq!(drops.get(), 4);
    assert_eq!(vec.len(), 4);
    assert_eq!(vec.allocated_capacity(), 6);
    for id in 0..4 {
        assert_eq!(vec[id].id, id);
    }

    drop(vec);
    assert_eq!(drops.get(), 8);
}

#[test]
fn shrinking_resize_sets_the_allocation() {
    for m in 0..=7usize {
        let mut vec = filled::<3>(7);
        vec.resize(m, 0);
        assert_eq!(vec.len(), m);
        assert_eq!(vec.allocated_capacity(), 3 * ((m + 2) / 3));
        let plain: Vec<usize> = (0..m).map(|i| i * 10 + 1).collect();
        assert_eq!(contents(&vec), plain);
    }
}

#[test]
fn growing_resize_appends_clones() {
    let mut vec: ChunkedVec<i32, 3> = ChunkedVecSized::new();
    vec.push(1);
    vec.push(2);

    vec.resize(8, 42);
    assert_eq!(vec.len(), 8);
    assert_eq!(contents(&vec), vec![1, 2, 42, 42, 42, 42, 42, 42]);
    assert_eq!(vec.allocated_capacity(), 9);

    let shared = Rc::new(5);
    let mut refs: ChunkedVec<Rc<i32>, 2> = ChunkedVecSized::new();
    refs.resize(3, shared.clone());
    assert_eq!(refs.len(), 3);
    assert_eq!(Rc::strong_count(&shared), 4);
    drop(refs);
    assert_eq!(Rc::strong_count(&shared), 1);
}

#[test]
fn resize_to_the_same_length_changes_nothing() {
    let mut vec = filled::<3>(5);
    vec.swap_remove(4);
    vec.swap_remove(3);
    vec.swap_remove(2);
    assert_eq!(vec.allocated_capacity(), 6);
    vec.resize(2, 0);
    assert_eq!(vec.len(), 2);
    assert_eq!(vec.allocated_capacity(), 6);
    assert_eq!(contents(&vec), vec![1, 11]);
}

#[test]
fn discarded_owning_walk_destroys_the_rest_once() {
    let drops = Cell::new(0);
    let mut vec: ChunkedVec<Counted, 4> = ChunkedVecSized::new();
    for id in 0..10 {
        vec.push(Counted { id, drops: &drops });
    }

    let mut iter = vec.into_iter();
    for id in 0..5 {
        let item = iter.next().unwrap();
        assert_eq!(item.id, id);
    }
    assert_eq!(drops.get(), 5);

    drop(iter);
    assert_eq!(drops.get(), 10);
}

#[test]
fn drop_remaining_destroys_the_rest_once() {
    let drops = Cell::new(0);
    let mut vec: ChunkedVec<Counted, 4> = ChunkedVecSized::new();
    for id in 0..10 {
        vec.push(Counted { id, drops: &drops });
    }

    let mut iter = vec.into_iter();
    let first = iter.next().unwrap();
    assert_eq!(first.id, 0);
    iter.drop_remaining();
    assert_eq!(drops.get(), 9);
    assert_eq!(iter.size_hint(), (0, Some(0)));
    assert!(iter.next().is_none());

    drop(iter);
    assert_eq!(drops.get(), 9);
    drop(first);
    assert_eq!(drops.get(), 10);
}

#[test]
fn dropped_container_destroys_every_element_once() {
    let drops = Cell::new(0);
    let mut vec: ChunkedVec<Counted, 3> = ChunkedVecSized::new();
    for id in 0..8 {
        vec.push(Counted { id, drops: &drops });
    }
    let removed = vec.remove(3);
    let swapped = vec.swap_remove(0);
    assert_eq!(removed.id, 3);
    assert_eq!(swapped.id, 0);
    assert_eq!(drops.get(), 0);
    drop(vec);
    assert_eq!(drops.get(), 6);
}

#[test]
fn out_of_bounds_queries_return_none() {
    let mut vec: ChunkedVec<i32, 4> = ChunkedVecSized::new();
    for _ in 0..3 {
        assert_eq!(vec.get(0), None);
        assert_eq!(vec.get_mut(0), None);
        assert_eq!(vec.get(usize::MAX), None);
        assert_eq!(vec.get_mut(usize::MAX), None);
    }
    vec.push(5);
    vec.push(6);
    for _ in 0..3 {
        assert_eq!(vec.get(2), None);
        assert_eq!(vec.get_mut(2), None);
        assert_eq!(vec.get(100), None);
        assert_eq!(vec.get_mut(100), None);
    }
    assert_eq!(vec.get(1), Some(&6));
    assert_eq!(vec.len(), 2);
}
