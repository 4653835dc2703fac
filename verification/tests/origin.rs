use stylesheet_set::origin::{Origin, OriginSet, PerOrigin};

fn origins(set: OriginSet) -> Vec<Origin> {
    let mut out = Vec::new();
    let mut it = set.iter();
    while let Some(origin) = it.next() {
        out.push(origin);
    }
    out
}

#[test]
fn empty_set_holds_no_origin() {
    let set = OriginSet::empty();
    assert!(set.is_empty());
    assert!(!set.contains(Origin::UserAgent));
    assert!(!set.contains(Origin::User));
    assert!(!set.contains(Origin::Author));
    assert!(origins(set).is_empty());
}

#[test]
fn full_set_holds_every_origin() {
    let set = OriginSet::all();
    assert!(!set.is_empty());
    assert!(set.contains(Origin::UserAgent));
    assert!(set.contains(Origin::User));
    assert!(set.contains(Origin::Author));
    assert_eq!(origins(set), vec![Origin::Author, Origin::User, Origin::UserAgent]);
}

#[test]
fn single_origin_set_holds_that_origin_only() {
    let set = OriginSet::from_origin(Origin::User);
    assert!(!set.is_empty());
    assert!(set.contains(Origin::User));
    assert!(!set.contains(Origin::UserAgent));
    assert!(!set.contains(Origin::Author));
    assert_eq!(origins(set), vec![Origin::User]);
}

#[test]
fn insert_and_union_add_origins() {
    let mut set = OriginSet::empty();
    set.insert(Origin::UserAgent);
    assert_eq!(origins(set), vec![Origin::UserAgent]);
    set.insert(Origin::Author);
    set.insert(Origin::Author);
    assert_eq!(origins(set), vec![Origin::Author, Origin::UserAgent]);
    let both = set.union(OriginSet::from_origin(Origin::User));
    assert_eq!(origins(both), vec![Origin::Author, Origin::User, Origin::UserAgent]);
    assert_eq!(origins(OriginSet::empty().union(OriginSet::empty())), vec![]);
}

#[test]
fn origin_from_index_follows_the_iteration_order() {
    assert_eq!(Origin::from_index(0), Some(Origin::Author));
    assert_eq!(Origin::from_index(1), Some(Origin::User));
    assert_eq!(Origin::from_index(2), Some(Origin::UserAgent));
    assert_eq!(Origin::from_index(3), None);
    assert_eq!(Origin::from_index(255), None);
}

#[test]
fn origin_iterator_stays_at_its_end() {
    let mut it = OriginSet::from_origin(Origin::Author).iter();
    assert_eq!(it.next(), Some(Origin::Author));
    assert_eq!(it.next(), None);
    assert_eq!(it.next(), None);
}

#[test]
fn per_origin_borrows_the_value_of_the_origin() {
    let mut values = PerOrigin { user_agent: 1, user: 2, author: 3 };
    assert_eq!(*values.borrow_for_origin(&Origin::UserAgent), 1);
    assert_eq!(*values.borrow_for_origin(&Origin::User), 2);
    assert_eq!(*values.borrow_for_origin(&Origin::Author), 3);
    *values.borrow_mut_for_origin(&Origin::User) = 20;
    assert_eq!(values.user, 20);
    assert_eq!(values.user_agent, 1);
    assert_eq!(values.author, 3);
}
