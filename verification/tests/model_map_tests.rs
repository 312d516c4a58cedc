use simple_llm_proxy::model_map::{ModelMap, ModelTarget};

fn target(m: &str) -> ModelTarget {
    ModelTarget::new("http://u".to_string(), Some("k".to_string()), m.to_string())
}

#[test]
fn model_map_insert_get_models() {
    let mut map = ModelMap::new();
    assert!(map.models().is_empty());
    assert!(!map.insert("b", target("1")));
    assert!(!map.insert("a", target("2")));
    assert!(map.insert("b", target("3")));
    assert_eq!(map.models(), vec!["b".to_string(), "a".to_string()]);
    let t = map.get("b").unwrap();
    assert_eq!(t.model, "3");
    assert_eq!(t.base_url, "http://u");
    assert_eq!(t.api_key, Some("k".to_string()));
    assert_eq!(map.get("a").unwrap().model, "2");
    assert!(map.get("c").is_none());
}

#[test]
fn model_target_duplicate_is_equal() {
    let t = target("x");
    let d = t.duplicate();
    assert_eq!((d.base_url, d.api_key, d.model), (t.base_url, t.api_key, t.model));
}
