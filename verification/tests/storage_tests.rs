use cw_core::{Bound, Item, MockStorage, Order, Prefix, StdError, Storage, StoreMap};

fn populated() -> (MockStorage, StoreMap<u32, String>) {
    let mut store = MockStorage::new();
    let map: StoreMap<u32, String> = StoreMap::new(b"names".to_vec());
    map.save(&mut store, &2, &"b".to_string());
    map.save(&mut store, &1, &"a".to_string());
    map.save(&mut store, &3, &"c".to_string());
    (store, map)
}

#[test]
fn map_load_returns_saved_values() {
    let (store, map) = populated();
    assert_eq!(map.load(&store, &1).unwrap(), "a");
    assert_eq!(map.load(&store, &2).unwrap(), "b");
    assert_eq!(map.load(&store, &4).unwrap_err(), StdError::NotFound);
}

#[test]
fn map_save_overwrites_and_remove_deletes() {
    let (mut store, map) = populated();
    map.save(&mut store, &2, &"bb".to_string());
    assert_eq!(map.load(&store, &2).unwrap(), "bb");
    map.remove(&mut store, &2);
    assert_eq!(map.load(&store, &2).unwrap_err(), StdError::NotFound);
    // removing again is a no-op
    map.remove(&mut store, &2);
    assert_eq!(map.load(&store, &1).unwrap(), "a");
}

#[test]
fn ascending_range_yields_all_entries_in_key_order() {
    let (store, map) = populated();
    let asc = map.range(&store, &None, &None, Order::Ascending).unwrap();
    assert_eq!(
        asc,
        vec![(1, "a".to_string()), (2, "b".to_string()), (3, "c".to_string())]
    );
    let desc = map.range(&store, &None, &None, Order::Descending).unwrap();
    assert_eq!(
        desc,
        vec![(3, "c".to_string()), (2, "b".to_string()), (1, "a".to_string())]
    );
}

#[test]
fn empty_window_returns_no_entries() {
    // min inclusive k and max exclusive k on the same k: empty scan.
    let (store, map) = populated();
    let out = map
        .range(
            &store,
            &Some(Bound::Inclusive(2)),
            &Some(Bound::Exclusive(2)),
            Order::Ascending,
        )
        .unwrap();
    assert!(out.is_empty());
}

#[test]
fn bounds_are_inclusive_below_exclusive_above() {
    let (store, map) = populated();
    let out = map
        .range(
            &store,
            &Some(Bound::Inclusive(1)),
            &Some(Bound::Exclusive(3)),
            Order::Ascending,
        )
        .unwrap();
    assert_eq!(out, vec![(1, "a".to_string()), (2, "b".to_string())]);

    let out = map
        .range(
            &store,
            &Some(Bound::Exclusive(1)),
            &Some(Bound::Inclusive(3)),
            Order::Ascending,
        )
        .unwrap();
    assert_eq!(out, vec![(2, "b".to_string()), (3, "c".to_string())]);
}

#[test]
fn prefixes_do_not_collide() {
    let mut store = MockStorage::new();
    let names: StoreMap<u32, String> = StoreMap::new(b"names".to_vec());
    let ages: StoreMap<u32, String> = StoreMap::new(b"ages".to_vec());
    names.save(&mut store, &1, &"a".to_string());
    ages.save(&mut store, &1, &"x".to_string());
    let out = names.range(&store, &None, &None, Order::Ascending).unwrap();
    assert_eq!(out, vec![(1, "a".to_string())]);
}

#[test]
fn clear_removes_entries_under_prefix() {
    let (mut store, map) = populated();
    let view: Prefix<u32, String> = Prefix::new(&b"names".to_vec(), &Vec::new());
    let n = view.clear(&mut store, Some(2));
    assert_eq!(n, 2);
    let rest = map.range(&store, &None, &None, Order::Ascending).unwrap();
    assert_eq!(rest, vec![(3, "c".to_string())]);
    let n = view.clear(&mut store, None);
    assert_eq!(n, 1);
    // safe on an already-empty prefix
    let n = view.clear(&mut store, None);
    assert_eq!(n, 0);
}

#[test]
fn item_cell_loads_what_was_saved() {
    let mut store = MockStorage::new();
    let cell: Item<String> = Item::new(b"config".to_vec());
    assert_eq!(cell.load(&store).unwrap_err(), StdError::NotFound);
    cell.save(&mut store, &"v1".to_string());
    assert_eq!(cell.load(&store).unwrap(), "v1");
    cell.save(&mut store, &"v2".to_string());
    assert_eq!(cell.load(&store).unwrap(), "v2");
    cell.remove(&mut store);
    assert_eq!(cell.load(&store).unwrap_err(), StdError::NotFound);
}

#[test]
fn raw_store_scan_orders_by_key_bytes() {
    let mut store = MockStorage::new();
    store.set(&vec![2], &vec![20]);
    store.set(&vec![1], &vec![10]);
    store.set(&vec![1, 0], &vec![15]);
    let all = store.scan(None, None, Order::Ascending);
    let keys: Vec<Vec<u8>> = all.into_iter().map(|p| p.0).collect();
    assert_eq!(keys, vec![vec![1], vec![1, 0], vec![2]]);
    assert_eq!(store.get(&vec![1, 0]), Some(vec![15]));
    store.remove(&vec![1, 0]);
    assert_eq!(store.get(&vec![1, 0]), None);
}
