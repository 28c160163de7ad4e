use cpca::trie::Trie;

#[test]
fn test_trie_insert_and_get() {
    let mut trie = Trie::new();
    trie.insert("广东省", 1);
    trie.insert("广东", 2);
    trie.insert("广州市", 3);

    assert_eq!(trie.get("广东省"), Some(&1));
    assert_eq!(trie.get("广东"), Some(&2));
    assert_eq!(trie.get("广州市"), Some(&3));
    assert_eq!(trie.get("广"), None);
    assert_eq!(trie.get("北京"), None);
}

#[test]
fn test_find_longest_prefix() {
    let mut trie = Trie::new();
    trie.insert("广东", 1);
    trie.insert("广东省", 2);

    let text = "广东省深圳市";
    let result = trie.find_longest_prefix(text);
    assert!(result.is_some());
    let (matched, value, len) = result.unwrap();
    assert_eq!(matched, "广东省");
    assert_eq!(*value, 2);
    assert_eq!(len, "广东省".len());
}

#[test]
fn test_find_all() {
    let mut trie = Trie::new();
    trie.insert("广东省", 1);
    trie.insert("深圳市", 2);
    trie.insert("南山区", 3);

    let text = "广东省深圳市南山区科技园";
    let results = trie.find_all(text);

    assert_eq!(results.len(), 3);
    assert_eq!(results[0].1, "广东省");
    assert_eq!(results[1].1, "深圳市");
    assert_eq!(results[2].1, "南山区");
}

#[test]
fn test_trie_contains() {
    let mut trie = Trie::new();
    trie.insert("深圳市", 7);
    assert!(trie.contains("深圳市"));
    assert!(!trie.contains("深圳"));
}

#[test]
fn test_trie_insert_overwrites() {
    let mut trie = Trie::new();
    trie.insert("南山区", 1);
    trie.insert("南山区", 9);
    assert_eq!(trie.get("南山区"), Some(&9));
}

#[test]
fn test_find_longest_prefix_no_match() {
    let mut trie = Trie::new();
    trie.insert("广东省", 1);
    assert!(trie.find_longest_prefix("北京市朝阳区").is_none());
    assert!(trie.find_longest_prefix("").is_none());
}

#[test]
fn test_find_all_positions_are_byte_offsets() {
    let mut trie = Trie::new();
    trie.insert("深圳市", 2);
    let text = "广东省深圳市";
    let results = trie.find_all(text);
    assert_eq!(results.len(), 1);
    assert_eq!(results[0].0, "广东省".len());
    assert_eq!(results[0].1, "深圳市");
}
