use database::memory::{AlreadyExists, Table};
use database::postgres::error::{Error, GetError};
use database::types::guards::Valid;
use database::types::names::{compare, Order};

#[test]
fn table_insert_refuses_a_key_that_is_there() {
    let mut table: Table<u64, &str> = Table::new();
    assert_eq!(table.insert(2, "two"), Ok(()));
    assert_eq!(table.insert(1, "one"), Ok(()));
    assert_eq!(table.insert(2, "zwei"), Err(AlreadyExists));
    assert_eq!(table.get(&2), Some(&"two"));
    assert_eq!(table.get(&1), Some(&"one"));
    assert_eq!(table.get(&3), None);
}

#[test]
fn table_find_any_all_go_by_key_order() {
    let mut table: Table<u64, u64> = Table::new();
    assert_eq!(table.find(|v| *v > 0), None);
    assert!(!table.any(|v| *v > 0));
    assert!(table.all(|v| *v > 0));
    table.insert(3, 30).unwrap();
    table.insert(1, 10).unwrap();
    table.insert(2, 20).unwrap();
    assert_eq!(table.find(|v| *v >= 20), Some(&20));
    assert_eq!(table.find(|v| *v > 30), None);
    assert!(table.any(|v| *v == 30));
    assert!(!table.any(|v| *v == 31));
    assert!(table.all(|v| *v % 10 == 0));
    assert!(!table.all(|v| *v < 30));
}

#[test]
fn valid_only_marks() {
    let mut marked = Valid::assume_valid(7u8);
    assert_eq!(*marked.get(), 7);
    assert_eq!(*marked, 7);
    *marked += 1;
    assert_eq!(marked.into_inner(), 8);
}

#[test]
fn names_are_ordered_byte_by_byte() {
    assert_eq!(compare("", ""), Order::Equal);
    assert_eq!(compare("", "a"), Order::Less);
    assert_eq!(compare("a", ""), Order::Greater);
    assert_eq!(compare("ab", "abc"), Order::Less);
    assert_eq!(compare("abd", "abc"), Order::Greater);
    assert_eq!(compare("Z", "a"), Order::Less);
    assert_eq!(compare("z", "é"), Order::Less);
    assert_eq!(compare("name", "name"), Order::Equal);
    for (a, b) in [("bogus", "name"), ("id", "name"), ("a", "B"), ("é", "e")] {
        let expected = match a.cmp(b) {
            std::cmp::Ordering::Less => Order::Less,
            std::cmp::Ordering::Equal => Order::Equal,
            std::cmp::Ordering::Greater => Order::Greater,
        };
        assert_eq!(compare(a, b), expected);
    }
}

#[test]
fn unique_violation_is_told_apart() {
    assert_eq!(
        Error::from_pg(Some("23505"), "dup".to_string()),
        Error::UniqueViolation("dup".to_string())
    );
    assert_eq!(
        Error::from_pg(Some("23503"), "fk".to_string()),
        Error::Unknown("fk".to_string())
    );
    assert_eq!(Error::from_pg(None, "io".to_string()), Error::Unknown("io".to_string()));
    assert_eq!(
        GetError::from_pg(Some("23505"), "dup".to_string()),
        GetError::Error(Error::UniqueViolation("dup".to_string()))
    );
}
