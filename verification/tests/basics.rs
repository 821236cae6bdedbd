use mainline_core::id::Id;
use mainline_core::id_map::IdMap;
use mainline_core::messages::{supports_signed_peers, VERSION, VERSIONS_SUPPORTING_SIGNED_PEERS};

fn id(number: u8) -> Id {
    Id {
        bytes: [number; 20],
    }
}

#[test]
fn ids_compare_by_bytes() {
    let mut other = id(7);
    assert_eq!(id(7), other);
    other.bytes[19] = 8;
    assert_ne!(id(7), other);
}

#[test]
fn map_holds_one_value_per_id() {
    let mut map = IdMap::new();
    assert_eq!(map.insert(id(1), "one"), None);
    assert_eq!(map.insert(id(2), "two"), None);
    assert_eq!(map.insert(id(1), "uno"), Some("one"));
    assert_eq!(map.get(&id(1)), Some(&"uno"));
    assert_eq!(map.get(&id(3)), None);
    assert!(map.contains_key(&id(2)));
    assert_eq!(map.remove(&id(2)), Some("two"));
    assert_eq!(map.remove(&id(2)), None);
    assert!(!map.contains_key(&id(2)));
    assert_eq!(map.get(&id(1)), Some(&"uno"));
}

#[test]
fn versions_that_know_signed_peers() {
    assert_eq!(VERSIONS_SUPPORTING_SIGNED_PEERS, [VERSION]);
    assert!(supports_signed_peers(Some(VERSION)));
    assert!(supports_signed_peers(Some([82, 83, 0, 7])));
    assert!(supports_signed_peers(Some([82, 83, 1, 0])));
    assert!(!supports_signed_peers(Some([82, 83, 0, 5])));
    assert!(!supports_signed_peers(Some([76, 84, 1, 9])));
    assert!(!supports_signed_peers(Some([82, 84, 0, 6])));
    assert!(!supports_signed_peers(None));
}
