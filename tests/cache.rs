use uniscan::cache::FileCache;

#[test]
fn second_load_of_a_path_is_served_from_the_cache() {
    let mut cache: FileCache<u32> = FileCache::new();
    let mut decodes = 0;
    for path in ["A", "B", "A", "A", "B"] {
        let next = decodes + 1;
        if cache.ensure_loaded(path, || Ok::<u32, ()>(next)).unwrap() {
            decodes += 1;
        }
    }
    assert_eq!(decodes, 2);
    assert_eq!(cache.len(), 2);
    assert_eq!(cache.get("A"), Some(&1));
    assert_eq!(cache.get("B"), Some(&2));
    assert_eq!(cache.get("C"), None);
}

#[test]
fn ensure_loaded_decodes_each_path_once() {
    let mut cache: FileCache<String> = FileCache::new();
    let mut calls = 0;
    let mut decoded = Vec::new();
    for path in ["A", "B", "A", "B", "A"] {
        let fresh = cache
            .ensure_loaded(path, || {
                calls += 1;
                Ok::<String, String>(format!("decoded {path}"))
            })
            .unwrap();
        decoded.push(fresh);
    }
    assert_eq!(calls, 2);
    assert_eq!(decoded, vec![true, true, false, false, false]);
    assert_eq!(cache.get("A"), Some(&"decoded A".to_string()));
}

#[test]
fn failed_decode_is_not_tried_again() {
    let mut cache: FileCache<String> = FileCache::new();
    let mut calls = 0;
    let r = cache.ensure_loaded("A", || {
        calls += 1;
        Err::<String, String>("corrupt".to_string())
    });
    assert_eq!(r, Err(Some("corrupt".to_string())));
    assert_eq!(cache.len(), 0);
    let again = cache.ensure_loaded("A", || {
        calls += 1;
        Ok::<String, String>("ok".to_string())
    });
    assert_eq!(again, Err(None));
    assert_eq!(calls, 1);
    assert_eq!(cache.get("A"), None);
    assert_eq!(cache.ensure_loaded("B", || Ok::<String, String>("b".to_string())), Ok(true));
    assert_eq!(cache.len(), 1);
}
