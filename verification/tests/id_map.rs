use id_map::IdMap;
use id_set::IdSet;
use std::cell::Cell;
use std::rc::Rc;

fn numbers(from: u32, to: u32) -> Vec<u32> {
    (from..to).collect()
}

fn values_of(map: &IdMap<u32>) -> Vec<u32> {
    let mut out = Vec::new();
    let mut it = map.values();
    while let Some(v) = it.next() {
        out.push(*v);
    }
    out
}

#[test]
fn id_map() {
    let mut ids = IdMap::<Box<u32>>::new();
    assert!(ids.assert_invariant());

    assert_eq!(ids.insert(Box::new(0)), 0);
    assert_eq!(*ids[0], 0);
    assert!(ids.assert_invariant());

    assert_eq!(ids.insert(Box::new(1)), 1);
    assert_eq!(*ids[1], 1);
    assert!(ids.assert_invariant());

    assert_eq!(ids.insert(Box::new(2)), 2);
    assert_eq!(*ids[2], 2);
    assert!(ids.assert_invariant());

    assert_eq!(*ids.remove(0).unwrap(), 0);
    assert_eq!(*ids.remove(2).unwrap(), 2);
    assert!(ids.assert_invariant());

    assert_eq!(ids.insert(Box::new(3)), 0);
    assert_eq!(*ids[0], 3);
    assert!(ids.assert_invariant());

    assert_eq!(ids.insert(Box::new(4)), 2);
    assert_eq!(*ids[2], 4);
    assert!(ids.assert_invariant());
}

#[test]
fn iter() {
    let ids1 = IdMap::from_iter(numbers(0, 5));
    assert!(ids1.assert_invariant());

    assert_eq!(ids1[0], 0);
    assert_eq!(ids1[1], 1);
    assert_eq!(ids1[2], 2);
    assert_eq!(ids1[3], 3);
    assert_eq!(ids1[4], 4);

    let mut ids2: IdMap<_> = ids1.clone();
    assert!(ids1 == ids2);
    ids2.clone_from(&ids1);
    assert!(ids1 == ids2);

    let mut pairs = Vec::new();
    let mut it = ids2.into_iter();
    while let Some(pair) = it.next() {
        pairs.push(pair);
    }
    assert!(ids1 == IdMap::from_pairs(pairs));
}

#[test]
fn iter_mut() {
    let mut ids = IdMap::from_iter(numbers(0, 5));

    let mut refs: Vec<&mut u32> = Vec::new();
    let mut it = ids.values_mut();
    while let Some(r) = it.next() {
        refs.push(r);
    }

    refs.sort();
    refs.dedup_by(|l, r| std::ptr::eq::<u32>(&**l, &**r));

    assert_eq!(refs.len(), 5)
}

struct Test(u32, Rc<Cell<usize>>);

impl Test {
    fn new(val: u32, count: &Rc<Cell<usize>>) -> Self {
        count.set(count.get() + 1);
        Test(val, count.clone())
    }
}

impl Drop for Test {
    fn drop(&mut self) {
        assert!(self.1.get() != 0);
        self.1.set(self.1.get() - 1);
    }
}

impl Clone for Test {
    fn clone(&self) -> Self {
        Self::new(self.0, &self.1)
    }
}

#[test]
fn ubsan() {
    let count = Rc::new(Cell::new(0usize));

    let mut ids = IdMap::<Test>::new();
    assert!(ids.assert_invariant());

    assert_eq!(ids.insert(Test::new(0, &count)), 0);
    assert!(ids.assert_invariant());

    assert_eq!(ids.insert(Test::new(1, &count)), 1);
    assert!(ids.assert_invariant());

    assert_eq!(ids.insert(Test::new(2, &count)), 2);
    assert!(ids.assert_invariant());

    ids.remove(0).unwrap();
    assert!(ids.assert_invariant());

    ids.remove(2).unwrap();
    assert!(ids.assert_invariant());

    assert_eq!(ids.insert(Test::new(3, &count)), 0);
    assert!(ids.assert_invariant());

    assert_eq!(ids.insert(Test::new(4, &count)), 2);
    assert!(ids.assert_invariant());

    std::mem::drop(ids.clone());

    ids.shrink_to_fit();

    let mut ids2 = IdMap::from_iter(vec![Test::new(0, &count)]);
    ids2.clone_from(&ids);

    ids2.retain(|_, &Test(val, _)| val % 2 != 0);

    ids2.clear();
    ids2.clone_from(&ids);

    ids2.shrink_to_fit();

    let set = (0..ids2.capacity()).collect();
    ids2.remove_set(&set);

    std::mem::drop(ids);
    std::mem::drop(ids2);

    assert_eq!(count.get(), 0);
}

#[test]
fn print() {
    let ids = IdMap::from_iter(numbers(0, 5));

    assert_eq!(ids.debug_string(), "{0: 0, 1: 1, 2: 2, 3: 3, 4: 4}")
}

#[test]
fn insert_at() {
    let mut ids = IdMap::from_iter(numbers(0, 5));

    assert_eq!(ids.insert_at(3, 6), Some(3));
    assert!(ids.assert_invariant());
    assert_eq!(ids.remove(3), Some(6));
    assert!(ids.assert_invariant());
    assert_eq!(ids.insert_at(3, 7), None);
    assert!(ids.assert_invariant());
    assert_eq!(ids[3], 7);
    assert!(ids.assert_invariant());
    assert_eq!(ids.insert_at(10, 10), None);
    assert!(ids.assert_invariant());
    assert_eq!(ids.remove(10), Some(10));
    assert!(ids.assert_invariant());
}

#[test]
fn get_or_insert() {
    let mut ids = IdMap::from_iter(numbers(0, 5));

    assert_eq!(ids.get_or_insert(3, 42), &3);
    assert!(ids.assert_invariant());
    assert_eq!(ids.remove(3), Some(3));
    assert!(ids.assert_invariant());
    assert_eq!(ids.get_or_insert(3, 42), &42);
    assert!(ids.assert_invariant());
    assert_eq!(ids[3], 42);
    assert!(ids.assert_invariant());
    assert_eq!(ids.get_or_insert(10, 10), &10);
    assert!(ids.assert_invariant());
    assert_eq!(ids.remove(10), Some(10));
    assert!(ids.assert_invariant());
}

#[test]
fn retain() {
    let mut ids = IdMap::from_iter(numbers(0, 100));

    ids.retain(|_, n| n % 2 == 0);

    let vals: Vec<_> = values_of(&ids);
    let expected: Vec<_> = (0..50).map(|n| n * 2).collect();

    assert_eq!(vals, expected);
}

#[test]
fn remove_set() {
    let mut ids = IdMap::from_iter(numbers(0, 100));

    ids.remove_set(&IdSet::from_iter(0..50));

    let vals: Vec<_> = values_of(&ids);
    let expected: Vec<_> = (50..100).collect();

    assert_eq!(vals, expected);
}

#[test]
fn next_id() {
    let mut map1 = IdMap::new();
    for _ in 0..10 {
        map1.insert("foo");
    }
    // remove all odd ids
    for i in 0..5 {
        map1.remove(i * 2 + 1);
    }
    assert_eq!(map1.next_id(), 1);

    let mut map2 = IdMap::new();
    for _ in 0..10 {
        map2.insert("foo");
    }
    // remove all odd ids
    map2.retain(|id, _| id % 2 == 0);
    assert_eq!(map2.next_id(), 1);

    let mut map3 = IdMap::new();
    let set: IdSet = (0..10).filter(|i| i % 2 != 0).collect();
    for _ in 0..10 {
        map3.insert("foo");
    }
    map3.remove_set(&set);
    assert_eq!(map3.next_id(), 1);
}
