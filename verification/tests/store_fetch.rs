use relay_paging::request::RangeQuery;
use relay_paging::store::{Row, Store};

fn store_of(keys: &[i32]) -> Store<String> {
    let mut store = Store::new();
    for key in keys {
        assert!(store.insert(*key, format!("node {key}")));
    }
    store
}

fn keys_of(rows: &[Row<&String>]) -> Vec<i32> {
    rows.iter().map(|r| r.key).collect()
}

fn query(lower: i32, upper: i32, size: u32, ascending: bool) -> RangeQuery {
    RangeQuery { lower, upper, size, ascending }
}

#[test]
fn new_store_is_empty() {
    let store: Store<String> = Store::new();
    assert_eq!(store.len(), 0);
    assert!(store.rows().is_empty());
    assert_eq!(store.get(1), None);
}

#[test]
fn insert_takes_only_ascending_valid_keys() {
    let mut store: Store<&str> = Store::new();
    assert!(!store.insert(0, "zero"));
    assert!(!store.insert(-3, "negative"));
    assert!(!store.insert(i32::MAX, "sentinel"));
    assert!(store.insert(3, "three"));
    assert!(!store.insert(3, "again"));
    assert!(!store.insert(2, "below"));
    assert!(store.insert(4, "four"));
    assert!(store.insert(i32::MAX - 1, "last"));
    assert!(!store.insert(i32::MAX - 1, "again"));
    assert_eq!(store.len(), 3);
    let keys: Vec<i32> = store.rows().iter().map(|r| r.key).collect();
    assert_eq!(keys, vec![3, 4, i32::MAX - 1]);
    assert_eq!(store.get(3), Some(&"three"));
    assert_eq!(store.get(4), Some(&"four"));
}

#[test]
fn create_gives_serial_keys() {
    let mut store: Store<&str> = Store::new();
    assert_eq!(store.create("a"), Some(1));
    assert_eq!(store.create("b"), Some(2));
    assert!(store.insert(10, "j"));
    assert_eq!(store.create("k"), Some(11));
    assert_eq!(store.len(), 4);
    assert_eq!(store.get(11), Some(&"k"));
}

#[test]
fn create_stops_below_the_upper_sentinel() {
    let mut store: Store<&str> = Store::new();
    assert!(store.insert(i32::MAX - 2, "x"));
    assert_eq!(store.create("y"), Some(i32::MAX - 1));
    assert_eq!(store.create("z"), None);
    assert_eq!(store.len(), 2);
}

#[test]
fn get_finds_by_key() {
    let store = store_of(&[2, 4, 6]);
    assert_eq!(store.get(4), Some(&"node 4".to_string()));
    assert_eq!(store.get(2), Some(&"node 2".to_string()));
    assert_eq!(store.get(6), Some(&"node 6".to_string()));
    assert_eq!(store.get(5), None);
    assert_eq!(store.get(0), None);
    assert_eq!(store.get(7), None);
}

#[test]
fn fetch_ascending_within_bounds() {
    let store = store_of(&[1, 2, 3, 4, 5, 6, 7, 8]);
    let rows = store.fetch_range(&query(2, 7, 10, true));
    assert_eq!(keys_of(&rows), vec![3, 4, 5, 6]);
    assert_eq!(rows[0].node, "node 3");
}

#[test]
fn fetch_ascending_stops_one_past_the_size() {
    let store = store_of(&[1, 2, 3, 4, 5, 6, 7, 8]);
    assert_eq!(keys_of(&store.fetch_range(&query(0, i32::MAX, 3, true))), vec![1, 2, 3, 4]);
    assert_eq!(keys_of(&store.fetch_range(&query(0, i32::MAX, 0, true))), vec![1]);
    assert_eq!(keys_of(&store.fetch_range(&query(5, i32::MAX, 2, true))), vec![6, 7, 8]);
    assert_eq!(keys_of(&store.fetch_range(&query(5, i32::MAX, 3, true))), vec![6, 7, 8]);
}

#[test]
fn fetch_descending_within_bounds() {
    let store = store_of(&[1, 2, 3, 4, 5, 6, 7, 8]);
    assert_eq!(keys_of(&store.fetch_range(&query(2, 7, 10, false))), vec![6, 5, 4, 3]);
    assert_eq!(keys_of(&store.fetch_range(&query(0, i32::MAX, 2, false))), vec![8, 7, 6]);
    assert_eq!(keys_of(&store.fetch_range(&query(0, 4, 5, false))), vec![3, 2, 1]);
}

#[test]
fn fetch_over_gaps_and_empty_ranges() {
    let store = store_of(&[10, 20, 30]);
    assert_eq!(keys_of(&store.fetch_range(&query(10, 30, 10, true))), vec![20]);
    assert_eq!(keys_of(&store.fetch_range(&query(15, 25, 10, true))), vec![20]);
    assert_eq!(keys_of(&store.fetch_range(&query(20, 21, 10, true))), Vec::<i32>::new());
    assert_eq!(keys_of(&store.fetch_range(&query(30, 10, 10, true))), Vec::<i32>::new());
    assert_eq!(keys_of(&store.fetch_range(&query(30, 10, 10, false))), Vec::<i32>::new());
    assert_eq!(keys_of(&store.fetch_range(&query(-5, 11, 10, false))), vec![10]);
}

#[test]
fn fetch_with_the_largest_size() {
    let store = store_of(&[1, 2, 3]);
    assert_eq!(keys_of(&store.fetch_range(&query(0, i32::MAX, u32::MAX, true))), vec![1, 2, 3]);
    assert_eq!(keys_of(&store.fetch_range(&query(0, i32::MAX, u32::MAX, false))), vec![3, 2, 1]);
}

#[test]
fn fetch_from_an_empty_store() {
    let store: Store<String> = Store::new();
    assert!(store.fetch_range(&query(0, i32::MAX, 10, true)).is_empty());
    assert!(store.fetch_range(&query(0, i32::MAX, 10, false)).is_empty());
}
