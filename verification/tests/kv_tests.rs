use plugin_supervisor::kv::KvStore;

#[test]
fn test_kv_store_basic_operations() {
    let mut kv = KvStore::new();

    kv.plugin_kv_set("test-plugin", "test_key", "test_value");
    assert_eq!(
        kv.plugin_kv_get("test-plugin", "test_key"),
        Some("test_value".to_string())
    );

    kv.plugin_kv_set("test-plugin", "test_key", "updated_value");
    assert_eq!(
        kv.plugin_kv_get("test-plugin", "test_key"),
        Some("updated_value".to_string())
    );

    kv.plugin_kv_delete("test-plugin", "test_key");
    assert_eq!(kv.plugin_kv_get("test-plugin", "test_key"), None);

    assert_eq!(kv.plugin_kv_get("test-plugin", "nonexistent"), None);
}

#[test]
fn test_kv_store_isolation() {
    let mut kv = KvStore::new();

    kv.plugin_kv_set("plugin-a", "shared_key", "value-a");
    kv.plugin_kv_set("plugin-b", "shared_key", "value-b");

    assert_eq!(
        kv.plugin_kv_get("plugin-a", "shared_key"),
        Some("value-a".to_string())
    );
    assert_eq!(
        kv.plugin_kv_get("plugin-b", "shared_key"),
        Some("value-b".to_string())
    );
}

#[test]
fn test_kv_delete_leaves_other_namespace_alone() {
    let mut kv = KvStore::new();
    kv.plugin_kv_set("plugin-a", "k", "a");
    kv.plugin_kv_set("plugin-b", "k", "b");
    kv.plugin_kv_delete("plugin-a", "k");
    assert_eq!(kv.plugin_kv_get("plugin-a", "k"), None);
    assert_eq!(kv.plugin_kv_get("plugin-b", "k"), Some("b".to_string()));
}

#[test]
fn test_kv_namespace_listing() {
    let mut kv = KvStore::new();
    kv.plugin_kv_set("plugin-a", "one", "1");
    kv.plugin_kv_set("plugin-a", "two", "2");
    kv.plugin_kv_set("plugin-b", "three", "3");

    let rows = kv.plugin_kv_get_all("plugin-a");
    assert_eq!(rows.len(), 2);
    assert_eq!(rows[0].key, "one");
    assert_eq!(rows[0].value, "1");
    assert_eq!(rows[1].key, "two");
    assert_eq!(rows[1].value, "2");
    assert!(rows.iter().all(|r| r.plugin_id == "plugin-a"));

    assert_eq!(kv.plugin_kv_get_all("plugin-c").len(), 0);
}

#[test]
fn test_kv_namespace_listing_sorts_by_key() {
    let mut kv = KvStore::new();
    kv.plugin_kv_set("p", "zebra", "3");
    kv.plugin_kv_set("p", "apple", "1");
    kv.plugin_kv_set("p", "mango", "2");

    let rows = kv.plugin_kv_get_all("p");
    let keys: Vec<&str> = rows.iter().map(|r| r.key.as_str()).collect();
    assert_eq!(keys, vec!["apple", "mango", "zebra"]);
}

#[test]
fn test_kv_delete_keeps_rest_of_own_namespace() {
    let mut kv = KvStore::new();
    kv.plugin_kv_set("p", "alpha", "1");
    kv.plugin_kv_set("p", "beta", "2");
    kv.plugin_kv_delete("p", "alpha");

    let rows = kv.plugin_kv_get_all("p");
    assert_eq!(rows.len(), 1);
    assert_eq!(rows[0].key, "beta");
    assert_eq!(rows[0].value, "2");
}
