use serverless_core::deployment::Deployment;
use serverless_core::isolate::{IsolateCache, IsolateInitError};
use serverless_core::table::StrTable;

fn deployment(id: &str, code_key: &str) -> Deployment {
    let mut environment_variables = StrTable::new();
    environment_variables.insert("MODE".to_string(), "production".to_string());
    Deployment {
        id: id.to_string(),
        function_id: "f1".to_string(),
        hostnames: vec!["acme.example".to_string()],
        assets: Vec::new(),
        environment_variables,
        memory_limit: 128,
        timeout: 50,
        code_key: code_key.to_string(),
    }
}

#[test]
fn repeated_get_or_create_returns_the_same_instance() {
    let d = deployment("d1", "v1.js");
    let mut cache = IsolateCache::new();
    let first = cache.get_or_create("acme.example", &d, Some(b"v1".to_vec())).unwrap();
    assert!(first.fresh.is_some());
    for _ in 0..5 {
        let again = cache.get_or_create("acme.example", &d, Some(b"v1".to_vec())).unwrap();
        assert_eq!(again.instance, first.instance);
        assert!(again.fresh.is_none());
    }
    let without_code = cache.get_or_create("acme.example", &d, None).unwrap();
    assert_eq!(without_code.instance, first.instance);
    assert!(without_code.fresh.is_none());
    assert_eq!(cache.len(), 1);
    assert_eq!(cache.constructed(), 1);
}

#[test]
fn evict_then_get_or_create_yields_a_new_instance() {
    let d = deployment("d1", "v1.js");
    let mut cache = IsolateCache::new();
    let first = cache.get_or_create("acme.example", &d, Some(b"v1".to_vec())).unwrap();
    assert_eq!(cache.evict("acme.example"), Some(first.instance));
    assert!(!cache.contains("acme.example"));
    let second = cache.get_or_create("acme.example", &d, Some(b"v1".to_vec())).unwrap();
    assert_ne!(second.instance, first.instance);
    assert_eq!(second.instance, 1);
    assert!(second.fresh.is_some());
    assert_eq!(cache.constructed(), 2);
}

#[test]
fn evicting_an_absent_hostname_changes_nothing() {
    let d = deployment("d1", "v1.js");
    let mut cache = IsolateCache::new();
    assert_eq!(cache.evict("acme.example"), None);
    cache.get_or_create("acme.example", &d, Some(Vec::new())).unwrap();
    assert_eq!(cache.evict("other.example"), None);
    assert_eq!(cache.len(), 1);
    assert!(cache.contains("acme.example"));
}

#[test]
fn code_load_failure_caches_nothing_and_can_be_retried() {
    let d = deployment("d1", "v1.js");
    let mut cache = IsolateCache::new();
    let failed = cache.get_or_create("acme.example", &d, None).unwrap_err();
    assert_eq!(failed, IsolateInitError::CodeUnavailable);
    assert_eq!(cache.len(), 0);
    assert_eq!(cache.constructed(), 0);
    assert!(cache.lookup("acme.example").is_none());
    let retried = cache.get_or_create("acme.example", &d, Some(b"v1".to_vec())).unwrap();
    assert_eq!(retried.instance, 0);
    assert!(retried.fresh.is_some());
}

#[test]
fn exhausted_instance_numbers_are_an_error() {
    let d = deployment("d1", "v1.js");
    let mut cache = IsolateCache::numbered_from(u64::MAX);
    let failed = cache.get_or_create("acme.example", &d, Some(b"v1".to_vec())).unwrap_err();
    assert_eq!(failed, IsolateInitError::InstancesExhausted);
    assert_eq!(cache.len(), 0);
    assert_eq!(cache.constructed(), u64::MAX);

    let mut last = IsolateCache::numbered_from(u64::MAX - 1);
    let acquired = last.get_or_create("acme.example", &d, Some(b"v1".to_vec())).unwrap();
    assert_eq!(acquired.instance, u64::MAX - 1);
    assert_eq!(last.constructed(), u64::MAX);
}

#[test]
fn each_hostname_has_one_isolate() {
    let d = deployment("d1", "v1.js");
    let mut cache = IsolateCache::new();
    let a = cache.get_or_create("a.example", &d, Some(b"v1".to_vec())).unwrap();
    let b = cache.get_or_create("b.example", &d, Some(b"v1".to_vec())).unwrap();
    let a_again = cache.get_or_create("a.example", &d, Some(b"v1".to_vec())).unwrap();
    assert_eq!(a.instance, 0);
    assert_eq!(b.instance, 1);
    assert_eq!(a_again.instance, 0);
    assert_eq!(cache.len(), 2);
    assert_eq!(cache.constructed(), 2);
}

#[test]
fn isolate_is_built_from_the_deployment_of_that_moment() {
    let d = deployment("d1", "v1.js");
    let mut cache = IsolateCache::new();
    let acquired = cache.get_or_create("acme.example", &d, Some(b"export default 1".to_vec())).unwrap();
    let options = acquired.fresh.unwrap();
    assert_eq!(options.code, b"export default 1".to_vec());
    assert_eq!(options.memory_limit, 128);
    assert_eq!(options.timeout, 50);
    assert_eq!(options.environment_variables.len(), 1);
    assert_eq!(options.environment_variables.get("MODE"), Some(&"production".to_string()));
    let record = cache.lookup("acme.example").unwrap();
    assert_eq!(record.instance, 0);
    assert_eq!(record.settings.code_key, "v1.js");
    assert_eq!(record.settings.memory_limit, 128);
    assert_eq!(record.settings.timeout, 50);
    assert_eq!(record.settings.environment_variables.get("MODE"), Some(&"production".to_string()));

    let newer = deployment("d1", "v2.js");
    let again = cache.get_or_create("acme.example", &newer, Some(b"v2".to_vec())).unwrap();
    assert_eq!(again.instance, 0);
    assert!(again.fresh.is_none());
    assert_eq!(cache.lookup("acme.example").unwrap().settings.code_key, "v1.js");
}

#[test]
fn clear_all_empties_the_cache_and_keeps_counting() {
    let d = deployment("d1", "v1.js");
    let mut cache = IsolateCache::new();
    cache.get_or_create("a.example", &d, Some(Vec::new())).unwrap();
    cache.get_or_create("b.example", &d, Some(Vec::new())).unwrap();
    cache.clear_all();
    assert_eq!(cache.len(), 0);
    assert_eq!(cache.constructed(), 2);
    let next = cache.get_or_create("a.example", &d, Some(Vec::new())).unwrap();
    assert_eq!(next.instance, 2);
}

#[test]
fn evicting_a_list_drops_each_cached_hostname_once() {
    let d = deployment("d1", "v1.js");
    let mut cache = IsolateCache::new();
    cache.get_or_create("a.example", &d, Some(Vec::new())).unwrap();
    cache.get_or_create("b.example", &d, Some(Vec::new())).unwrap();
    cache.get_or_create("c.example", &d, Some(Vec::new())).unwrap();
    let names = vec![
        "c.example".to_string(),
        "x.example".to_string(),
        "a.example".to_string(),
        "c.example".to_string(),
    ];
    assert_eq!(cache.evict_each(&names), vec![2, 0]);
    assert_eq!(cache.len(), 1);
    assert!(cache.contains("b.example"));
    assert_eq!(cache.evict_each(&Vec::new()), Vec::<u64>::new());
    assert_eq!(cache.len(), 1);
    assert_eq!(cache.constructed(), 3);
}
