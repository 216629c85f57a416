//! The ordered table.

use oxidebsd::ordmap::OrdMap;

#[test]
fn keys_stay_in_order() {
    let mut m: OrdMap<char> = OrdMap::new();
    m.insert(5, 'e');
    m.insert(1, 'a');
    m.insert(3, 'c');
    m.insert(1, 'b');
    assert_eq!(m.len(), 3);
    let keys: Vec<u64> = (0..m.len()).map(|i| m.key_at(i)).collect();
    assert_eq!(keys, vec![1, 3, 5]);
    assert_eq!(*m.val_at(0), 'b');
    assert_eq!(m.get(3), Some(&'c'));
    assert_eq!(m.get(4), None);
    *m.get_mut(3).unwrap() = 'z';
    assert_eq!(m.remove(3), Some('z'));
    assert_eq!(m.remove(3), None);
    assert!(!m.contains_key(3));
    assert_eq!(m.len(), 2);
}
