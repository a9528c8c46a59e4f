use charts::OrderedSet;

#[test]
fn ordered_numbers() {
    let mut indices: OrderedSet<u8> = OrderedSet::new();

    for item in [17, 12, 99, 12, 1].iter() {
        indices.define_if_not_exist(item);
    }
    let indices = indices;

    assert_eq!(indices.index_of(&17), Some(0));
    assert_eq!(indices.index_of(&12), Some(1));
    assert_eq!(indices.index_of(&99), Some(2));
    assert_eq!(indices.index_of(&1), Some(3));
    assert_eq!(indices.index_of(&u8::MAX), None);

    assert_eq!(indices.key(0), Some(&17));
    assert_eq!(indices.key(1), Some(&12));
    assert_eq!(indices.key(2), Some(&99));
    assert_eq!(indices.key(3), Some(&1));
    assert_eq!(indices.key(4), None);
    assert_eq!(indices.key(usize::MAX), None);
}

#[test]
fn ordered_strs() {
    let mut indices: OrderedSet<&str> = OrderedSet::new();

    for item in ["A", "C", "B", "C", "B", "D"].iter() {
        indices.define_if_not_exist(item);
    }

    let indices = indices;

    assert_eq!(indices.index_of(&"A"), Some(0));
    assert_eq!(indices.index_of(&"B"), Some(2));
    assert_eq!(indices.index_of(&"C"), Some(1));
    assert_eq!(indices.index_of(&"D"), Some(3));
    assert_eq!(indices.index_of(&"E"), None);

    assert_eq!(indices.key(0), Some(&"A"));
    assert_eq!(indices.key(1), Some(&"C"));
    assert_eq!(indices.key(2), Some(&"B"));
    assert_eq!(indices.key(3), Some(&"D"));
    assert_eq!(indices.key(4), None);
    assert_eq!(indices.key(usize::MAX), None);
}

#[test]
fn ordered_strings() {
    let mut indices: OrderedSet<String> = OrderedSet::new();

    let (a, b, c, c2, d, e) = (
        String::from("A"),
        String::from("B"),
        String::from("C"),
        String::from("C"),
        String::from("D"),
        String::from("E"),
    );

    let source = [
        a.clone(),
        c.clone(),
        b.clone(),
        c2.clone(),
        d.clone(),
        c.clone(),
    ];

    for item in source.iter() {
        indices.define_if_not_exist(item);
    }

    let indices = indices;

    assert_eq!(indices.index_of(&a), Some(0));
    assert_eq!(indices.index_of(&b), Some(2));
    assert_eq!(indices.index_of(&c), Some(1));
    assert_eq!(indices.index_of(&d), Some(3));
    assert_eq!(indices.index_of(&e), None);

    assert_eq!(indices.key(0), Some(&a));
    assert_eq!(indices.key(1), Some(&c));
    assert_eq!(indices.key(2), Some(&b));
    assert_eq!(indices.key(3), Some(&d));
    assert_eq!(indices.key(4), None);
    assert_eq!(indices.key(usize::MAX), None);
}

#[test]
fn iterate() {
    let mut indices: OrderedSet<&str> = OrderedSet::new();

    for item in ["C", "D", "A", "B", "C", "B"].iter() {
        indices.define_if_not_exist(item);
    }

    let mut iter = indices.iter().iter();

    assert_eq!(iter.next(), Some(&"C"));
    assert_eq!(iter.next(), Some(&"D"));
    assert_eq!(iter.next(), Some(&"A"));
    assert_eq!(iter.next(), Some(&"B"));
    assert_eq!(iter.next(), None);
}

#[test]
fn reinsert_keeps_index_and_size() {
    let mut indices: OrderedSet<u32> = OrderedSet::new();
    assert_eq!(indices.define_if_not_exist(&7), 0);
    assert_eq!(indices.define_if_not_exist(&9), 1);
    assert_eq!(indices.len(), 2);
    assert_eq!(indices.define_if_not_exist(&7), 0);
    assert_eq!(indices.define_if_not_exist(&9), 1);
    assert_eq!(indices.len(), 2);
}

#[test]
fn clear_resets_indices() {
    let mut indices: OrderedSet<u32> = OrderedSet::new();
    indices.define_if_not_exist(&7);
    indices.clear();
    assert_eq!(indices.len(), 0);
    assert_eq!(indices.index_of(&7), None);
    assert_eq!(indices.define_if_not_exist(&9), 0);
}
