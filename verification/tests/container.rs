use chunk_list::ChunkList;

#[test]
fn push_pop_front() {
    let mut list = ChunkList::<i32, 2>::new();
    list.push_front(1);
    list.push_front(2);
    list.push_front(3);
    assert_eq!(list.pop_front(), Some(3));
    assert_eq!(list.pop_front(), Some(2));
    assert_eq!(list.pop_front(), Some(1));
    assert_eq!(list.pop_front(), None);
}

#[test]
fn peek() {
    let mut list = ChunkList::<i32, 2>::new();
    assert_eq!(list.get(0), None);
    list.push_front(3);
    list.push_front(2);
    list.push_front(1);
    assert_eq!(list.get(0), Some(&1));
}

#[test]
fn into_iter() {
    let mut list = ChunkList::<i32, 2>::new();
    list.push_front(1);
    list.push_front(2);
    list.push_front(3);

    let mut iter = list.into_iter();
    assert_eq!(iter.next(), Some(3));
    assert_eq!(iter.next(), Some(2));
    assert_eq!(iter.next(), Some(1));
    assert_eq!(iter.next(), None);
}

#[test]
fn iter() {
    let mut list = ChunkList::<i32, 2>::new();
    list.push_front(1);
    list.push_front(2);
    list.push_front(3);

    let mut iter = list.iter();
    assert_eq!(iter.next(), Some(&3));
    assert_eq!(iter.next(), Some(&2));
    assert_eq!(iter.next(), Some(&1));
    assert_eq!(iter.next(), None);
}

#[test]
fn erase() {
    let mut list = ChunkList::<i32, 2>::new();
    list.push_front(1);
    list.push_front(2);
    list.push_front(3);
    list.clear();
    assert_eq!(list.get(0), None);
}

#[test]
fn elements_count() {
    let mut list = ChunkList::<i32, 2>::new();
    assert_eq!(list.elements_count(), 0);
    list.push_front(1);
    assert_eq!(list.elements_count(), 1);
    list.push_front(2);
    assert_eq!(list.elements_count(), 2);
    list.pop_front();
    assert_eq!(list.elements_count(), 1);
    list.pop_back();
    assert_eq!(list.elements_count(), 0);
}
