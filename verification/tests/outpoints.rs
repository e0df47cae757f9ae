use tx_gen::outpoints::OutpointMap;
use tx_gen::tx::Outpoint;

fn outpoint(tag: u8, index: u32) -> Outpoint {
    Outpoint { transaction_id: [tag; 32], index }
}

#[test]
fn map_holds_what_was_inserted() {
    let mut map: OutpointMap<u128> = OutpointMap::new();
    assert_eq!(map.len(), 0);
    assert!(!map.contains(&outpoint(1, 0)));
    map.insert(outpoint(1, 0), 5);
    map.insert(outpoint(1, 1), 6);
    map.insert(outpoint(1, 0), 7);
    assert_eq!(map.len(), 2);
    assert!(map.contains(&outpoint(1, 0)));
    assert!(map.contains(&outpoint(1, 1)));
    assert!(!map.contains(&outpoint(2, 0)));
}

#[test]
fn map_forgets_what_was_removed() {
    let mut map: OutpointMap<()> = OutpointMap::new();
    map.insert(outpoint(1, 0), ());
    map.insert(outpoint(2, 0), ());
    map.remove(&outpoint(1, 0));
    map.remove(&outpoint(3, 0));
    assert_eq!(map.len(), 1);
    assert!(!map.contains(&outpoint(1, 0)));
    assert!(map.contains(&outpoint(2, 0)));
}

#[test]
fn ids_that_begin_alike_are_kept_apart() {
    let mut map: OutpointMap<u128> = OutpointMap::new();
    let mut alike = outpoint(1, 0);
    alike.transaction_id[31] = 9;
    map.insert(outpoint(1, 0), 1);
    map.insert(alike, 2);
    assert_eq!(map.len(), 2);
    map.remove(&outpoint(1, 0));
    assert!(map.contains(&alike));
    assert!(!map.contains(&outpoint(1, 0)));
}

#[test]
fn old_moments_are_dropped() {
    let mut map: OutpointMap<u128> = OutpointMap::new();
    for tag in 0..50u8 {
        map.insert(outpoint(tag, 0), tag as u128);
    }
    map.retain_recent(60, 40);
    assert_eq!(map.len(), 30);
    assert!(!map.contains(&outpoint(19, 0)));
    assert!(map.contains(&outpoint(20, 0)));
    assert!(map.contains(&outpoint(49, 0)));
}

#[test]
fn moment_that_replaces_an_old_one_counts() {
    let mut map: OutpointMap<u128> = OutpointMap::new();
    map.insert(outpoint(1, 0), 0);
    map.insert(outpoint(1, 0), 100);
    map.retain_recent(110, 10);
    assert_eq!(map.len(), 1);
    map.retain_recent(50, 0);
    assert_eq!(map.len(), 1);
    map.retain_recent(111, 10);
    assert_eq!(map.len(), 0);
}

#[test]
fn outpoints_are_compared() {
    assert!(outpoint(1, 0).same(&outpoint(1, 0)));
    assert!(!outpoint(1, 0).same(&outpoint(1, 1)));
    assert!(!outpoint(1, 0).same(&outpoint(2, 0)));
}
