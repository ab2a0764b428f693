use clap::Iter;

#[test]
fn iter_skips_empty_slots_from_the_front() {
    let slots = vec![None, Some(1), None, Some(2), Some(3), None];
    let mut it = Iter::new(&slots);
    assert_eq!(it.size_hint(), (0, Some(6)));
    assert_eq!(it.next(), Some(&1));
    assert_eq!(it.size_hint(), (0, Some(4)));
    assert_eq!(it.next(), Some(&2));
    assert_eq!(it.next(), Some(&3));
    assert_eq!(it.size_hint(), (0, Some(1)));
    assert_eq!(it.next(), None);
    assert_eq!(it.size_hint(), (0, Some(0)));
    assert_eq!(it.next(), None);
}

#[test]
fn iter_skips_empty_slots_from_the_back() {
    let slots = vec![None, Some('a'), None, Some('b'), None, None];
    let mut it = Iter::new(&slots);
    assert_eq!(it.next_back(), Some(&'b'));
    assert_eq!(it.size_hint(), (0, Some(3)));
    assert_eq!(it.next_back(), Some(&'a'));
    assert_eq!(it.size_hint(), (0, Some(1)));
    assert_eq!(it.next_back(), None);
    assert_eq!(it.size_hint(), (0, Some(0)));
}

#[test]
fn iter_meets_in_the_middle() {
    let slots = vec![Some(10), None, Some(20), Some(30)];
    let mut it = Iter::new(&slots);
    let copy = it.clone();
    assert_eq!(it.next(), Some(&10));
    assert_eq!(it.next_back(), Some(&30));
    assert_eq!(it.next_back(), Some(&20));
    assert_eq!(it.next(), None);
    assert_eq!(it.next_back(), None);
    let mut copy = copy;
    assert_eq!(copy.next_back(), Some(&30));
}

#[test]
fn iter_over_no_slots_is_empty() {
    let slots: Vec<Option<u8>> = vec![];
    let mut it = Iter::new(&slots);
    assert_eq!(it.size_hint(), (0, Some(0)));
    assert_eq!(it.next(), None);
    assert_eq!(it.next_back(), None);
    let holes: Vec<Option<u8>> = vec![None, None];
    let mut it = Iter::new(&holes);
    assert_eq!(it.size_hint(), (0, Some(2)));
    assert_eq!(it.next(), None);
    assert_eq!(it.size_hint(), (0, Some(0)));
}
