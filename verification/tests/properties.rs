use id_map::IdMap;
use id_set::IdSet;

fn pairs_of<T: Clone>(map: &IdMap<T>) -> Vec<(usize, T)> {
    let mut out = Vec::new();
    let mut it = map.iter();
    while let Some((id, v)) = it.next() {
        out.push((id, v.clone()));
    }
    out
}

fn ids_of<T>(map: &IdMap<T>) -> Vec<usize> {
    let mut out = Vec::new();
    let mut it = map.ids();
    while let Some(id) = it.next() {
        out.push(id);
    }
    out
}

/// A map with values under 2, 5 and 9 only.
fn sparse() -> IdMap<u32> {
    let mut map = IdMap::new();
    map.insert_at(5, 50);
    map.insert_at(2, 20);
    map.insert_at(9, 90);
    map
}

#[test]
fn basic_churn() {
    let mut map = IdMap::new();
    assert_eq!(map.insert("blue"), 0);
    assert_eq!(map.insert("red"), 1);
    assert_eq!(map.insert("green"), 2);
    assert_eq!(map.remove(1), Some("red"));
    assert_eq!(map.insert("yellow"), 1);
    assert_eq!(pairs_of(&map), vec![(0, "blue"), (1, "yellow"), (2, "green")]);
    assert_eq!(map.debug_string(), "{0: \"blue\", 1: \"yellow\", 2: \"green\"}");
    assert!(map.assert_invariant());
}

#[test]
fn bulk_removal() {
    let mut map = IdMap::from_iter((0..100u32).collect());
    let set: IdSet = (0..50).collect();
    map.remove_set(&set);
    let expected: Vec<(usize, u32)> = (50..100).map(|n| (n as usize, n)).collect();
    assert_eq!(pairs_of(&map), expected);
    assert_eq!(map.next_id(), 0);
    assert_eq!(map.len(), 50);
    assert!(map.assert_invariant());
}

#[test]
fn remove_set_takes_only_what_both_hold() {
    let mut map = sparse();
    let set: IdSet = [0, 5, 9, 300].iter().cloned().collect();
    map.remove_set(&set);
    assert_eq!(pairs_of(&map), vec![(2, 20)]);
    assert_eq!(map.next_id(), 0);
    assert!(map.assert_invariant());

    let mut full = IdMap::from_iter(vec![1u32, 2, 3, 4]);
    let set: IdSet = [2, 3].iter().cloned().collect();
    full.remove_set(&set);
    assert_eq!(full.next_id(), 2);
    assert_eq!(pairs_of(&full), vec![(0, 1), (1, 2)]);

    let mut same = IdMap::from_iter(vec![1u32, 2]);
    same.remove_set(&IdSet::new());
    assert_eq!(same.next_id(), 2);
    assert_eq!(same.len(), 2);
}

#[test]
fn retain_filter_lowers_cursor() {
    let mut map = IdMap::from_iter((0..100u32).collect());
    map.retain(|_, n| n % 2 == 0);
    let expected: Vec<(usize, u32)> = (0..50).map(|n| (2 * n as usize, 2 * n)).collect();
    assert_eq!(pairs_of(&map), expected);
    assert_eq!(map.next_id(), 1);
    assert_eq!(map.len(), 50);
    assert!(map.assert_invariant());
}

#[test]
fn retain_asks_each_entry_once_in_order() {
    let mut map = sparse();
    let mut seen = Vec::new();
    map.retain(|id, v| {
        seen.push((id, *v));
        id != 5
    });
    assert_eq!(seen, vec![(2, 20), (5, 50), (9, 90)]);
    assert_eq!(pairs_of(&map), vec![(2, 20), (9, 90)]);
    assert_eq!(map.next_id(), 0);
    assert!(map.assert_invariant());
}

#[test]
fn retain_twice_is_retain_once() {
    let mut once = IdMap::from_iter((0..40u32).collect());
    once.retain(|id, n| id % 3 != 0 && *n < 30);
    let mut twice = once.clone();
    twice.retain(|id, n| id % 3 != 0 && *n < 30);
    assert!(once == twice);
    assert_eq!(pairs_of(&once), pairs_of(&twice));
    assert_eq!(once.next_id(), twice.next_id());
}

#[test]
fn round_trip() {
    for n in [0usize, 1, 7, 300] {
        let mut map = IdMap::new();
        let mut given = Vec::new();
        for k in 0..n {
            given.push((map.insert(k * 10), k * 10));
        }
        for (k, (id, val)) in given.iter().enumerate() {
            assert_eq!(*id, k);
            assert_eq!(map.get(*id), Some(val));
        }
        assert_eq!(map.len(), n);
        assert!(map.assert_invariant());
    }
}

#[test]
fn round_trip_into_gaps() {
    let mut map = sparse();
    let ids: Vec<usize> = (0..6).map(|k| map.insert(k)).collect();
    assert_eq!(ids, vec![0, 1, 3, 4, 6, 7]);
    for (k, id) in ids.iter().enumerate() {
        assert_eq!(map[*id], k as u32);
    }
    assert_eq!(map[2], 20);
    assert_eq!(map[5], 50);
    assert_eq!(map[9], 90);
    assert_eq!(map.next_id(), 8);
}

#[test]
fn id_reuse() {
    let mut map = IdMap::from_iter(vec!['a', 'b', 'c']);
    assert_eq!(map.remove(0), Some('a'));
    assert_eq!(map.next_id(), 0);
    assert_eq!(map.insert('d'), 0);

    assert_eq!(map.remove(1), Some('b'));
    assert_eq!(map.insert('e'), 1);
    assert_eq!(map.next_id(), 3);
}

#[test]
fn smallest_free_identifier_wins() {
    let mut map = IdMap::new();
    map.insert_at(5, 'x');
    assert_eq!(map.next_id(), 0);
    assert_eq!(map.remove(5), Some('x'));
    assert_eq!(map.insert('y'), 0);

    let mut map = IdMap::from_iter(vec![0u8, 1, 2, 3]);
    map.remove(3);
    map.remove(1);
    map.remove(2);
    assert_eq!(map.next_id(), 1);
    assert_eq!(map.insert(9), 1);
    assert_eq!(map.insert(9), 2);
    assert_eq!(map.insert(9), 3);
    assert_eq!(map.insert(9), 4);
}

#[test]
fn equality() {
    let mut a = IdMap::new();
    let mut b = IdMap::with_capacity(1000);
    for v in ["x", "y", "z"] {
        a.insert(v);
        b.insert(v);
    }
    assert!(a == b);
    assert!(b == a);
    b.remove(1);
    assert!(a != b);
    assert!(b != a);
    b.insert("w");
    assert!(a != b);
    b.insert_at(1, "y");
    assert!(a == b);
}

#[test]
fn equality_goes_by_identifier_not_by_history() {
    let mut a = IdMap::new();
    a.insert_at(700, 1u8);
    a.insert_at(3, 2);
    a.remove(700);
    let mut b = IdMap::new();
    b.insert_at(3, 2);
    assert!(a == b);
    b.insert_at(700, 1);
    assert!(a != b);
    let mut c = IdMap::new();
    c.insert_at(4, 2u8);
    assert!(a != c);
}

#[test]
fn clear_empties_and_resets() {
    let mut map = IdMap::from_iter(vec![1, 2, 3]);
    map.insert_at(40, 4);
    map.clear();
    assert_eq!(map.len(), 0);
    assert_eq!(map.next_id(), 0);
    assert!(!map.contains(0));
    assert_eq!(map.get(40), None);
    assert!(map.assert_invariant());
    assert_eq!(map.insert(5), 0);
    assert_eq!(pairs_of(&map), vec![(0, 5)]);
}

#[test]
fn absent_identifiers() {
    let mut map = sparse();
    assert!(!map.contains(0));
    assert!(map.contains(5));
    assert_eq!(map.get(0), None);
    assert_eq!(map.get(1000), None);
    assert_eq!(map.get_mut(3), None);
    assert_eq!(map.remove(3), None);
    assert_eq!(map.remove(usize::MAX), None);
    assert_eq!(map.len(), 3);
    assert_eq!(pairs_of(&map), vec![(2, 20), (5, 50), (9, 90)]);
}

#[test]
fn get_mut_changes_in_place() {
    let mut map = sparse();
    *map.get_mut(5).unwrap() += 1;
    assert_eq!(map[5], 51);
    assert_eq!(pairs_of(&map), vec![(2, 20), (5, 51), (9, 90)]);
    assert!(map.assert_invariant());
}

#[test]
fn insert_at_below_at_and_above_the_cursor() {
    let mut map = IdMap::from_iter(vec![0u32, 1, 2]);
    map.remove(1);
    assert_eq!(map.next_id(), 1);
    assert_eq!(map.insert_at(7, 70), None);
    assert_eq!(map.next_id(), 1);
    assert_eq!(map.insert_at(0, 5), Some(0));
    assert_eq!(map.next_id(), 1);
    assert_eq!(map.insert_at(1, 10), None);
    assert_eq!(map.next_id(), 3);
    assert_eq!(map.insert_at(3, 30), None);
    assert_eq!(map.next_id(), 4);
    assert_eq!(pairs_of(&map), vec![(0, 5), (1, 10), (2, 2), (3, 30), (7, 70)]);
    assert!(map.assert_invariant());
}

#[test]
fn get_or_insert_with_calls_only_when_needed() {
    let mut map = IdMap::from_iter(vec![1u32]);
    let mut calls = 0;
    assert_eq!(*map.get_or_insert_with(0, || { calls += 1; 9 }), 1);
    assert_eq!(calls, 0);
    assert_eq!(*map.get_or_insert_with(4, || { calls += 1; 9 }), 9);
    assert_eq!(calls, 1);
    *map.get_or_insert(4, 0) += 1;
    assert_eq!(map[4], 10);
    assert_eq!(map.next_id(), 1);
    assert_eq!(*map.get_or_insert(1, 3), 3);
    assert_eq!(map.next_id(), 2);
    assert!(map.assert_invariant());
}

#[test]
fn room() {
    let mut map = IdMap::<u8>::with_capacity(500);
    assert!(map.capacity() >= 500);
    assert_eq!(map.len(), 0);
    assert_eq!(map.next_id(), 0);
    map.reserve(1000);
    assert!(map.capacity() >= 1000);
    map.insert_at(600, 6);
    map.insert(1);
    map.remove(600);
    map.shrink_to_fit();
    assert!(map.capacity() > 0);
    assert_eq!(pairs_of(&map), vec![(0, 1)]);
    assert_eq!(map.next_id(), 1);
    assert!(map.assert_invariant());
    assert_eq!(map.insert_at(600, 7), None);
    assert_eq!(map[600], 7);
}

#[test]
fn room_that_was_asked_for_is_there() {
    for cap in [0usize, 1, 192, 193, 500, 4096] {
        let map = IdMap::<u32>::with_capacity(cap);
        assert!(map.capacity() >= cap);
        assert_eq!(map.len(), 0);
    }

    let mut map = IdMap::from_iter(vec![7u32, 8, 9]);
    let before = map.capacity();
    map.reserve(193);
    assert!(map.capacity() >= 193);
    assert!(map.capacity() >= before);
    let before = map.capacity();
    map.reserve(5);
    assert!(map.capacity() >= before);
    assert_eq!(pairs_of(&map), vec![(0, 7), (1, 8), (2, 9)]);
    assert_eq!(map.next_id(), 3);

    let mut copy = IdMap::<u32>::with_capacity(1000).clone();
    copy.reserve(300);
    assert!(copy.capacity() >= 300);
    assert!(copy.assert_invariant());
}

#[test]
fn shrinking_keeps_every_value() {
    let mut map = IdMap::new();
    map.insert_at(1000, 'z');
    map.insert_at(3, 'c');
    map.remove(1000);
    map.shrink_to_fit();
    assert_eq!(pairs_of(&map), vec![(3, 'c')]);
    assert_eq!(map.next_id(), 0);
    assert!(map.capacity() > 3);
    map.insert_at(700, 'y');
    map.shrink_to_fit();
    assert_eq!(pairs_of(&map), vec![(3, 'c'), (700, 'y')]);
    assert!(map.capacity() > 700);
    assert!(map.assert_invariant());
}

#[test]
fn as_set_is_the_occupancy() {
    let map = sparse();
    let ids: Vec<usize> = map.as_set().iter().collect();
    assert_eq!(ids, vec![2, 5, 9]);
    assert_eq!(map.as_set().len(), 3);
}

#[test]
fn default_is_empty() {
    let map: IdMap<String> = Default::default();
    assert_eq!(map.len(), 0);
    assert_eq!(map.next_id(), 0);
    assert_eq!(map.debug_string(), "{}");
}

#[test]
fn extend_inserts_each() {
    let mut map = sparse();
    map.extend(vec![1, 2, 3, 4]);
    assert_eq!(
        pairs_of(&map),
        vec![(0, 1), (1, 2), (2, 20), (3, 3), (4, 4), (5, 50), (9, 90)]
    );
    assert_eq!(map.next_id(), 6);
}

#[test]
fn from_pairs_later_pair_wins() {
    let map = IdMap::from_pairs(vec![(3, 'a'), (0, 'b'), (3, 'c')]);
    assert_eq!(pairs_of(&map), vec![(0, 'b'), (3, 'c')]);
    assert_eq!(map.next_id(), 1);
    assert!(map.assert_invariant());
}

#[test]
fn clone_is_independent() {
    let a = sparse();
    let mut b = a.clone();
    assert!(a == b);
    assert_eq!(b.next_id(), 0);
    b.remove(5);
    *b.get_mut(2).unwrap() = 0;
    assert_eq!(pairs_of(&a), vec![(2, 20), (5, 50), (9, 90)]);
    assert_eq!(pairs_of(&b), vec![(2, 0), (9, 90)]);
    assert!(b.assert_invariant());
}

#[test]
fn walks_go_by_increasing_identifier() {
    let map = sparse();
    assert_eq!(ids_of(&map), vec![2, 5, 9]);

    let mut ids = map.ids();
    assert_eq!(ids.len(), 3);
    assert_eq!(ids.size_hint(), (3, Some(3)));
    assert_eq!(ids.next(), Some(2));
    let mut again = ids.clone();
    assert_eq!(ids.len(), 2);
    assert_eq!(ids.next(), Some(5));
    assert_eq!(ids.next(), Some(9));
    assert_eq!(ids.next(), None);
    assert_eq!(ids.next(), None);
    assert_eq!(ids.len(), 0);
    assert_eq!(again.next(), Some(5));
    assert_eq!(again.size_hint(), (1, Some(1)));

    let mut values = map.values();
    assert_eq!(values.len(), 3);
    assert_eq!(values.next(), Some(&20));
    let mut rest = values.clone();
    assert_eq!(values.next(), Some(&50));
    assert_eq!(values.size_hint(), (1, Some(1)));
    assert_eq!(values.next(), Some(&90));
    assert_eq!(values.next(), None);
    assert_eq!(rest.next(), Some(&50));

    let mut entries = map.iter();
    assert_eq!(entries.len(), 3);
    assert_eq!(entries.size_hint(), (3, Some(3)));
    assert_eq!(entries.next(), Some((2, &20)));
    let mut rest = entries.clone();
    assert_eq!(entries.next(), Some((5, &50)));
    assert_eq!(entries.next(), Some((9, &90)));
    assert_eq!(entries.next(), None);
    assert_eq!(rest.len(), 2);
    assert_eq!(rest.next(), Some((5, &50)));
}

#[test]
fn changing_walks_skip_the_gaps() {
    let mut map = sparse();
    {
        let mut values = map.values_mut();
        assert_eq!(values.len(), 3);
        let a = values.next().unwrap();
        let b = values.next().unwrap();
        assert_eq!(values.size_hint(), (1, Some(1)));
        let c = values.next().unwrap();
        assert!(values.next().is_none());
        assert_eq!((*a, *b, *c), (20, 50, 90));
        *c += 3;
        *a += 1;
        *b += 2;
    }
    assert_eq!(pairs_of(&map), vec![(2, 21), (5, 52), (9, 93)]);
    {
        let mut entries = map.iter_mut();
        assert_eq!(entries.len(), 3);
        assert_eq!(entries.size_hint(), (3, Some(3)));
        while let Some((id, v)) = entries.next() {
            *v = id as u32;
        }
    }
    assert_eq!(pairs_of(&map), vec![(2, 2), (5, 5), (9, 9)]);
    assert!(map.assert_invariant());

    let mut dense = IdMap::from_iter(vec![1u32, 2, 3]);
    let mut entries = dense.iter_mut();
    let mut ids = Vec::new();
    while let Some((id, v)) = entries.next() {
        *v *= 10;
        ids.push(id);
    }
    assert_eq!(ids, vec![0, 1, 2]);
    assert_eq!(pairs_of(&dense), vec![(0, 10), (1, 20), (2, 30)]);
}

#[test]
fn a_walk_left_early_keeps_the_rest() {
    let mut map = sparse();
    {
        let mut values = map.values_mut();
        *values.next().unwrap() = 0;
    }
    assert_eq!(pairs_of(&map), vec![(2, 0), (5, 50), (9, 90)]);
    assert!(map.assert_invariant());
}

#[test]
fn consuming_walk_skips_the_gaps() {
    let map = IdMap::from_pairs(vec![
        (2, String::from("two")),
        (5, String::from("five")),
        (9, String::from("nine")),
    ]);
    let mut it = map.into_iter();
    assert_eq!(it.size_hint(), (3, Some(3)));
    assert_eq!(it.next(), Some((2, String::from("two"))));
    let mut copy = it.clone();
    assert_eq!(it.next(), Some((5, String::from("five"))));
    assert_eq!(it.size_hint(), (1, Some(1)));
    assert_eq!(it.next(), Some((9, String::from("nine"))));
    assert_eq!(it.next(), None);
    assert_eq!(it.next(), None);
    assert_eq!(copy.next(), Some((5, String::from("five"))));
    assert_eq!(copy.next(), Some((9, String::from("nine"))));
    assert_eq!(copy.next(), None);

    let mut empty = IdMap::<u8>::new().into_iter();
    assert_eq!(empty.next(), None);
}

#[test]
fn text_of_a_map() {
    let mut map = IdMap::new();
    assert_eq!(map.debug_string(), "{}");
    map.insert_at(7, "a");
    assert_eq!(map.debug_string(), "{7: \"a\"}");
    map.insert_at(10, "b");
    map.insert_at(1234, "c");
    assert_eq!(map.debug_string(), "{7: \"a\", 10: \"b\", 1234: \"c\"}");
    assert_eq!(
        map.debug_entries(),
        vec![
            (7, String::from("\"a\"")),
            (10, String::from("\"b\"")),
            (1234, String::from("\"c\""))
        ]
    );
    assert_eq!(
        id_map::text::render(&vec![(0, String::from("x")), (90, String::new())]),
        "{0: x, 90: }"
    );
}
