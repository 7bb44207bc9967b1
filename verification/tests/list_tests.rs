use std::sync::Arc;

use purse::List;

#[test]
fn concat_mut() {
    let mut list1 = List::create('a', List::create('b', List::empty()));
    let list2 = List::create('c', List::create('d', List::empty()));

    assert_eq!(Arc::strong_count(list1.head_link().as_ref().unwrap()), 1);

    list1.concat_mut(&list2);

    assert_eq!(
        list1,
        List::create(
            'a',
            List::create('b', List::create('c', List::create('d', List::empty())))
        )
    );

    let mut list3 = List::create('!', List::empty());

    // the splice above shares list2's chain with list1
    assert_eq!(Arc::strong_count(list2.head_link().as_ref().unwrap()), 2);

    list3.concat_mut(&list2);
    assert_eq!(
        list3,
        List::create('!', List::create('c', List::create('d', List::empty())))
    );
}

#[test]
fn concat_scenario() {
    let a = List::from_vec(vec![1, 2]);
    let b = List::from_vec(vec![3, 4]);

    let joined = a.clone().concat(&b);
    assert_eq!(joined, List::from_vec(vec![1, 2, 3, 4]));

    let joined_again = a.clone().concat(&b);
    assert_eq!(joined_again, List::from_vec(vec![1, 2, 3, 4]));

    assert_eq!(a, List::from_vec(vec![1, 2]));
    assert_eq!(b, List::from_vec(vec![3, 4]));
}

#[test]
fn prepend_and_append_scenario() {
    let empty: List<i32> = List::empty();
    assert_eq!(empty.prepend(9), List::from_vec(vec![9]));

    assert_eq!(
        List::from_vec(vec![1, 2]).append(3),
        List::from_vec(vec![1, 2, 3])
    );
}

#[test]
fn prepend_shares_and_preserves() {
    let base = List::from_vec(vec![10, 20, 30]);
    let longer = base.prepend(5);

    assert_eq!(base.len(), 3);
    assert_eq!(base, List::from_vec(vec![10, 20, 30]));
    assert_eq!(base.first(), Some(&10));
    assert_eq!(base.last(), Some(&30));

    assert_eq!(longer.len(), 4);
    assert_eq!(longer, List::from_vec(vec![5, 10, 20, 30]));

    // the new list shares the old chain instead of copying it
    assert_eq!(Arc::strong_count(base.head_link().as_ref().unwrap()), 2);
}

#[test]
fn concat_same_result_on_both_paths() {
    // an exclusively owned left operand lets nodes be reclaimed in place
    let fast = List::from_vec(vec![1, 2]).concat(&List::from_vec(vec![3, 4]));

    // a clone held elsewhere forces the copying fallback
    let a = List::from_vec(vec![1, 2]);
    let a_keep = a.clone();
    let slow = a.concat(&List::from_vec(vec![3, 4]));

    assert_eq!(fast, slow);
    assert_eq!(fast.len(), 4);
    assert_eq!(slow.len(), 4);
    for i in 0..4usize {
        assert_eq!(*fast.index(i), i as i32 + 1);
        assert_eq!(*slow.index(i), i as i32 + 1);
    }
    assert_eq!(a_keep, List::from_vec(vec![1, 2]));
}

#[test]
fn concat_does_not_disturb_clones() {
    let a = List::from_vec(vec![1, 2]);
    let b = List::from_vec(vec![3, 4]);
    let a2 = a.clone();
    let b2 = b.clone();

    let joined = a.concat(&b);

    assert_eq!(a2, List::from_vec(vec![1, 2]));
    assert_eq!(b2, List::from_vec(vec![3, 4]));
    assert_eq!(joined, List::from_vec(vec![1, 2, 3, 4]));
    assert_eq!(b, List::from_vec(vec![3, 4]));
}

#[test]
fn concat_associates() {
    let a = List::from_vec(vec![1]);
    let b = List::from_vec(vec![2, 3]);
    let c = List::from_vec(vec![4]);

    let left = a.clone().concat(&b).concat(&c);
    let right = a.concat(&b.clone().concat(&c));
    assert_eq!(left, right);
    assert_eq!(left, List::from_vec(vec![1, 2, 3, 4]));

    let e: List<i32> = List::empty();
    let still_empty = e.clone().concat(&e.clone()).concat(&e);
    assert_eq!(still_empty, List::empty());
}

#[test]
fn concat_identities() {
    let a = List::from_vec(vec![7, 8]);

    assert_eq!(List::empty().concat(&a), a);
    assert_eq!(a.clone().concat(&List::empty()), a);

    let e: List<i32> = List::empty();
    assert_eq!(e.clone().concat(&e), List::empty());
}

#[test]
fn len_matches_iteration() {
    let list = List::empty()
        .prepend(3)
        .prepend(2)
        .prepend(1)
        .append(4)
        .concat(&List::from_vec(vec![5, 6]));
    assert_eq!(list.len(), 6);
    assert_eq!(list, List::from_vec(vec![1, 2, 3, 4, 5, 6]));

    let mut count = 0;
    let mut iter = list.clone().into_iter();
    while iter.next().is_some() {
        count += 1;
    }
    assert_eq!(count, list.len());
    assert_eq!(list.to_vec().len(), list.len());
}

#[test]
fn index_bounds() {
    let list = List::from_vec(vec![10, 20, 30]);
    for i in 0..3usize {
        assert_eq!(list.try_index(i).unwrap(), &(i as i32 * 10 + 10));
    }

    // iteration yields the elements in indexing order
    let mut iter = list.clone().into_iter();
    for i in 0..3usize {
        assert_eq!(iter.next().unwrap(), *list.index(i));
    }
    assert_eq!(iter.next(), None);

    let err = list.try_index(3).unwrap_err();
    assert_eq!(err.len, 3);
    assert_eq!(err.index, 3);

    let err = list.try_index(100).unwrap_err();
    assert_eq!(err.len, 3);
    assert_eq!(err.index, 100);

    let empty: List<i32> = List::empty();
    let err = empty.try_index(0).unwrap_err();
    assert_eq!(err.len, 0);
    assert_eq!(err.index, 0);
}

#[test]
fn first_and_last() {
    let empty: List<char> = List::empty();
    assert_eq!(empty.first(), None);
    assert_eq!(empty.last(), None);

    let list = List::from_vec(vec!['x', 'y', 'z']);
    assert_eq!(list.first(), Some(&'x'));
    assert_eq!(list.last(), Some(&'z'));

    let longer = list.prepend('w');
    assert_eq!(longer.first(), Some(&'w'));
    assert_eq!(longer.last(), Some(&'z'));

    let single = List::create(1, List::empty());
    assert_eq!(single.first(), Some(&1));
    assert_eq!(single.last(), Some(&1));
}

#[test]
fn equality_rules() {
    let list1 = List::create(1, List::create(2, List::empty()));
    let list2 = List::create(1, List::create(2, List::empty()));
    let list3 = list2.clone().concat(&List::empty());

    assert!(list1 == list2);
    assert!(list1 == list3);
    assert!(List::<i32>::empty() == List::<i32>::empty());
    assert!(list1 != List::<i32>::empty());
    assert!(list1 != List::create(1, List::create(3, List::empty())));
    assert!(list1 != List::create(1, List::empty()));
}

#[test]
fn iteration_yields_elements_in_order() {
    let letters = List::create("o", List::create("n", List::create("e", List::empty())));
    let mut word = String::new();
    let mut iter = letters.into_iter();
    while let Some(s) = iter.next() {
        word += s;
    }
    assert_eq!(word, "one");
}

#[test]
fn iterator_is_single_pass() {
    let list = List::from_vec(vec![1, 2, 3]);
    let mut iter = list.clone().into_iter();
    assert_eq!(iter.next(), Some(1));
    assert_eq!(iter.next(), Some(2));

    // the source list is untouched, so a fresh iterator starts over
    let mut fresh = list.clone().into_iter();
    assert_eq!(fresh.next(), Some(1));

    assert_eq!(iter.next(), Some(3));
    assert_eq!(iter.next(), None);
}

#[test]
fn vec_round_trip() {
    let v = vec![1, 2, 3, 4];
    let list = List::from_vec(v.clone());
    assert_eq!(list.len(), 4);
    assert_eq!(list.to_vec(), v);

    let empty: List<i32> = List::from_vec(Vec::new());
    assert_eq!(empty.len(), 0);
    assert_eq!(empty.to_vec(), Vec::<i32>::new());
}

#[test]
fn repeated_append_grows_in_place() {
    let mut list: List<i32> = List::empty();
    for i in 0..100 {
        list = list.append(i);
    }
    assert_eq!(list.len(), 100);
    for i in 0..100usize {
        assert_eq!(*list.index(i), i as i32);
    }
    assert_eq!(list.first(), Some(&0));
    assert_eq!(list.last(), Some(&99));
}

#[test]
fn concat_immut_copies() {
    let a = List::from_vec(vec![1, 2]);
    let b = List::from_vec(vec![3]);

    let r = List::concat_immut(a.head_link(), &b);
    assert_eq!(r, List::from_vec(vec![1, 2, 3]));

    // the operands are left as they were
    assert_eq!(a, List::from_vec(vec![1, 2]));
    assert_eq!(b, List::from_vec(vec![3]));

    let e = List::<i32>::empty();
    let r = List::concat_immut(e.head_link(), &b);
    assert_eq!(r, b);
}

#[test]
fn default_is_empty() {
    let list: List<u8> = Default::default();
    assert_eq!(list.len(), 0);
    assert_eq!(list, List::empty());
}
