use fckloud::ip::IpLiteral;
use fckloud::ipmap::IpMap;
use fckloud::ipset::IpSet;

#[test]
fn set_keeps_its_members_in_order_and_once() {
    let mut set = IpSet::new();
    assert!(set.is_empty());
    assert!(set.insert(IpLiteral::V6(3)));
    assert!(set.insert(IpLiteral::V4(9)));
    assert!(set.insert(IpLiteral::V4(2)));
    assert!(!set.insert(IpLiteral::V4(9)));
    assert!(set.insert(IpLiteral::V6(1)));
    assert_eq!(set.len(), 4);
    assert_eq!(
        set.to_vec(),
        vec![IpLiteral::V4(2), IpLiteral::V4(9), IpLiteral::V6(1), IpLiteral::V6(3)]
    );
    assert_eq!(set.get(0), IpLiteral::V4(2));
    assert_eq!(set.get(3), IpLiteral::V6(3));
    assert!(set.contains(&IpLiteral::V4(9)));
    assert!(!set.contains(&IpLiteral::V6(9)));
    assert!(set.remove(&IpLiteral::V4(9)));
    assert!(!set.remove(&IpLiteral::V4(9)));
    assert!(!set.contains(&IpLiteral::V4(9)));
    assert_eq!(set.to_vec(), vec![IpLiteral::V4(2), IpLiteral::V6(1), IpLiteral::V6(3)]);
    assert!(!set.is_empty());
}

#[test]
fn map_keeps_one_value_for_each_key() {
    let mut map: IpMap<usize> = IpMap::new();
    assert!(map.is_empty());
    assert!(map.insert(IpLiteral::V4(5), 50));
    assert!(map.insert(IpLiteral::V4(1), 10));
    assert!(map.insert(IpLiteral::V6(0), 7));
    assert!(!map.insert(IpLiteral::V4(5), 51));
    assert_eq!(map.len(), 3);
    assert_eq!(map.get(&IpLiteral::V4(5)), Some(&51));
    assert_eq!(map.get(&IpLiteral::V4(2)), None);
    assert!(map.contains_key(&IpLiteral::V6(0)));
    assert!(!map.contains_key(&IpLiteral::V4(0)));
    assert_eq!(map.key_at(0), IpLiteral::V4(1));
    assert_eq!(map.value_at(0), &10);
    assert_eq!(
        map.as_slice(),
        &[(IpLiteral::V4(1), 10), (IpLiteral::V4(5), 51), (IpLiteral::V6(0), 7)]
    );
    assert_eq!(map.remove(&IpLiteral::V4(1)), Some(10));
    assert_eq!(map.remove(&IpLiteral::V4(1)), None);
    assert_eq!(map.into_entries(), vec![(IpLiteral::V4(5), 51), (IpLiteral::V6(0), 7)]);
}
