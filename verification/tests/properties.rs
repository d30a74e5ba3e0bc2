use chunk_list::Chunk;
use chunk_list::ChunkList;

#[test]
fn push_back_pop_back_round_trip() {
    let mut list = ChunkList::<i32, 2>::new();
    list.push_back(1);
    list.push_back(2);
    list.push_back(3);
    assert_eq!(list.pop_back(), Some(3));
    assert_eq!(list.pop_back(), Some(2));
    assert_eq!(list.pop_back(), Some(1));
    assert_eq!(list.pop_back(), None);
}

#[test]
fn counts_after_mixed_growth() {
    let mut list = ChunkList::<i32, 2>::new();
    assert_eq!(list.chunks_count(), 0);
    list.push_back(1);
    list.push_back(2);
    list.push_back(3);
    assert_eq!(list.elements_count(), 3);
    assert_eq!(list.chunks_count(), 2);
    list.push_front(0);
    assert_eq!(list.elements_count(), 4);
    assert_eq!(list.chunks_count(), 3);
}

#[test]
fn get_matches_borrowing_iteration() {
    let mut list = ChunkList::<i32, 2>::new();
    for v in [10, 20, 30, 40, 50] {
        list.push_back(v);
    }
    let mut iter = list.iter();
    for i in 0..5 {
        let from_get = list.get(i).copied();
        let from_iter = iter.next().copied();
        assert_eq!(from_get, from_iter);
    }
    assert_eq!(iter.next(), None);
    assert_eq!(list.get(5), None);
}

#[test]
fn borrowing_matches_consuming_iteration() {
    let mut list = ChunkList::<i32, 2>::new();
    list.push_front(1);
    list.push_front(2);
    list.push_front(3);

    let mut borrowed = Vec::new();
    let mut iter = list.iter();
    while let Some(v) = iter.next() {
        borrowed.push(*v);
    }
    assert_eq!(borrowed, vec![3, 2, 1]);

    let mut owned = Vec::new();
    let mut consuming = list.into_iter();
    while let Some(v) = consuming.next() {
        owned.push(v);
    }
    assert_eq!(owned, borrowed);
}

#[test]
fn clear_resets_counts() {
    let mut list = ChunkList::<i32, 2>::new();
    list.push_front(1);
    list.push_front(2);
    list.push_front(3);
    list.clear();
    assert_eq!(list.elements_count(), 0);
    assert_eq!(list.chunks_count(), 0);
    assert_eq!(list.get(0), None);
}

#[test]
fn push_front_then_pop_back() {
    let mut list = ChunkList::<i32, 2>::new();
    list.push_front(1);
    assert_eq!(list.pop_back(), Some(1));
    assert_eq!(list.elements_count(), 0);
    assert_eq!(list.chunks_count(), 0);
}

#[test]
fn remove_in_the_middle() {
    let mut list = ChunkList::<i32, 2>::new();
    for v in [1, 2, 3, 4, 5] {
        list.push_back(v);
    }
    assert_eq!(list.remove(2), Some(3));
    assert_eq!(list.elements_count(), 4);
    assert_eq!(list.get(0), Some(&1));
    assert_eq!(list.get(1), Some(&2));
    assert_eq!(list.get(2), Some(&4));
    assert_eq!(list.get(3), Some(&5));
    assert_eq!(list.remove(10), None);
    assert_eq!(list.elements_count(), 4);
}

#[test]
fn new_filled_makes_copies() {
    let list = ChunkList::<i32, 3>::new_filled(7, &42);
    assert_eq!(list.elements_count(), 7);
    for i in 0..7 {
        assert_eq!(list.get(i), Some(&42));
    }
    assert_eq!(list.get(7), None);
}

#[test]
fn chunk_respects_capacity() {
    let mut chunk = Chunk::<i32, 2>::new();
    assert!(chunk.is_empty());
    assert!(chunk.push_back(1));
    assert!(chunk.push_front(0));
    assert!(chunk.is_full());
    assert!(!chunk.push_back(9));
    assert!(!chunk.push_front(9));
    assert_eq!(chunk.len(), 2);
    assert_eq!(chunk.get(0), Some(&0));
    assert_eq!(chunk.get(1), Some(&1));
}

#[test]
fn chunk_pop_and_remove() {
    let mut chunk = Chunk::<i32, 4>::new();
    chunk.push_back(1);
    chunk.push_back(2);
    chunk.push_back(3);
    assert_eq!(chunk.remove(1), Some(2));
    assert_eq!(chunk.remove(2), None);
    assert_eq!(chunk.pop_front(), Some(1));
    assert_eq!(chunk.pop_back(), Some(3));
    assert_eq!(chunk.pop_back(), None);
    assert_eq!(chunk.pop_front(), None);
}
