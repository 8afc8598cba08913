use serverless_core::deployment::Deployment;
use serverless_core::table::StrTable;
use serverless_core::text::{asset_path, clone_strings, contains_str, str_eq, text_bytes};

#[test]
fn table_binds_each_key_once() {
    let mut table: StrTable<u32> = StrTable::new();
    assert_eq!(table.len(), 0);
    assert_eq!(table.insert("a".to_string(), 1), None);
    assert_eq!(table.insert("b".to_string(), 2), None);
    assert_eq!(table.insert("a".to_string(), 3), Some(1));
    assert_eq!(table.len(), 2);
    assert_eq!(table.get("a"), Some(&3));
    assert_eq!(table.get("b"), Some(&2));
    assert_eq!(table.get("c"), None);
    assert!(table.contains_key("a"));
    assert!(!table.contains_key("A"));
    assert!(!table.contains_key(""));
}

#[test]
fn table_remove_and_clear() {
    let mut table: StrTable<u32> = StrTable::new();
    table.insert("a".to_string(), 1);
    table.insert("b".to_string(), 2);
    table.insert("c".to_string(), 3);
    assert_eq!(table.remove("b"), Some(2));
    assert_eq!(table.remove("b"), None);
    assert_eq!(table.len(), 2);
    assert_eq!(table.get("a"), Some(&1));
    assert_eq!(table.get("c"), Some(&3));
    table.clear();
    assert_eq!(table.len(), 0);
    assert_eq!(table.get("a"), None);
}

#[test]
fn table_positions_walk_every_binding() {
    let mut table: StrTable<u32> = StrTable::new();
    for (i, key) in ["x", "y", "z"].iter().enumerate() {
        table.insert(key.to_string(), i as u32);
    }
    let mut seen: Vec<(String, u32)> = Vec::new();
    for i in 0..table.len() {
        let entry = table.binding_at(i).unwrap();
        assert_eq!(table.position(&entry.key), Some(i));
        seen.push((entry.key.clone(), entry.value));
    }
    assert!(table.binding_at(table.len()).is_none());
    seen.sort();
    assert_eq!(seen, vec![("x".to_string(), 0), ("y".to_string(), 1), ("z".to_string(), 2)]);
    assert_eq!(table.position("w"), None);
}

#[test]
fn tables_of_strings_agree_whatever_their_order() {
    let mut a: StrTable<String> = StrTable::new();
    let mut b: StrTable<String> = StrTable::new();
    assert!(a.agrees_with(&b));
    a.insert("k1".to_string(), "v1".to_string());
    assert!(!a.agrees_with(&b));
    assert!(!b.agrees_with(&a));
    a.insert("k2".to_string(), "v2".to_string());
    b.insert("k2".to_string(), "v2".to_string());
    b.insert("k1".to_string(), "v1".to_string());
    assert!(a.agrees_with(&b));
    assert!(b.agrees_with(&a));
    b.insert("k1".to_string(), "other".to_string());
    assert!(!a.agrees_with(&b));
    let copy = a.duplicate();
    assert!(copy.agrees_with(&a));
    assert_eq!(copy.len(), 2);
    assert_eq!(copy.get("k1"), Some(&"v1".to_string()));
}

#[test]
fn strings_compare_by_their_characters() {
    assert!(str_eq("", ""));
    assert!(str_eq("acme.example", "acme.example"));
    assert!(!str_eq("acme.example", "acme.exampl"));
    assert!(!str_eq("acme.example", "Acme.example"));
    assert!(!str_eq("a", ""));
    assert!(str_eq("\u{e9}", "\u{e9}"));
    assert!(!str_eq("\u{e9}", "e\u{301}"));
}

#[test]
fn asset_path_is_the_target_without_its_first_character() {
    assert_eq!(asset_path("/logo.png"), "logo.png");
    assert_eq!(asset_path("/"), "");
    assert_eq!(asset_path(""), "");
    assert_eq!(asset_path("/dir/file.txt?q=1"), "dir/file.txt?q=1");
    assert_eq!(asset_path("\u{e9}a"), "a");
}

#[test]
fn lists_of_strings() {
    let list = vec!["a".to_string(), "bc".to_string(), "".to_string()];
    assert!(contains_str(&list, "a"));
    assert!(contains_str(&list, "bc"));
    assert!(contains_str(&list, ""));
    assert!(!contains_str(&list, "b"));
    assert!(!contains_str(&Vec::new(), ""));
    assert_eq!(clone_strings(&list), list);
    assert_eq!(text_bytes("h\u{e9}"), vec![0x68, 0xc3, 0xa9]);
    assert_eq!(text_bytes(""), Vec::<u8>::new());
}

#[test]
fn deployment_copies_and_projections() {
    let mut environment_variables = StrTable::new();
    environment_variables.insert("A".to_string(), "1".to_string());
    let d = Deployment {
        id: "d1".to_string(),
        function_id: "f1".to_string(),
        hostnames: vec!["acme.example".to_string()],
        assets: vec!["logo.png".to_string(), "css/site.css".to_string()],
        environment_variables,
        memory_limit: 128,
        timeout: 50,
        code_key: "d1.js".to_string(),
    };
    let copy = d.clone();
    assert_eq!(copy.id, "d1");
    assert_eq!(copy.function_id, "f1");
    assert_eq!(copy.hostnames, d.hostnames);
    assert_eq!(copy.assets, d.assets);
    assert_eq!(copy.memory_limit, 128);
    assert_eq!(copy.timeout, 50);
    assert_eq!(copy.code_key, "d1.js");
    assert!(copy.environment_variables.agrees_with(&d.environment_variables));
    assert!(copy.same_settings(&d));

    assert!(d.has_asset("logo.png"));
    assert!(d.has_asset("css/site.css"));
    assert!(!d.has_asset("css"));
    assert!(!d.has_asset("site.css"));

    let labels = d.labels();
    assert_eq!(labels.deployment, "d1");
    assert_eq!(labels.function, "f1");
    let settings = d.settings();
    assert_eq!(settings.code_key, "d1.js");
    assert_eq!(settings.memory_limit, 128);
    assert_eq!(settings.timeout, 50);
    assert_eq!(settings.environment_variables.get("A"), Some(&"1".to_string()));
}
