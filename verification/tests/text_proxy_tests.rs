use simple_llm_proxy::config::{key_is_resolvable, lookup_env, resolve_api_key};
use simple_llm_proxy::filter::Filter;
use simple_llm_proxy::proxy::{
    default_base_url_string, is_hop_by_hop, setting_source, SettingSource, UpstreamSettings,
    DEFAULT_CONNECT_TIMEOUT_MS, DEFAULT_READ_TIMEOUT_MS, DEFAULT_TOTAL_TIMEOUT_MS,
};
use simple_llm_proxy::text::{env_var_name, trim_end_slashes};

#[test]
fn trims_only_trailing_slashes() {
    assert_eq!(trim_end_slashes("http://a/b///"), "http://a/b");
    assert_eq!(trim_end_slashes("///"), "");
    assert_eq!(trim_end_slashes("/x"), "/x");
    assert_eq!(trim_end_slashes(""), "");
    assert_eq!(trim_end_slashes("é/"), "é");
}

#[test]
fn env_references() {
    assert_eq!(env_var_name("env:A"), Some("A".to_string()));
    assert_eq!(env_var_name("ENV:"), Some("".to_string()));
    assert_eq!(env_var_name("eNv:ÄB"), Some("ÄB".to_string()));
    assert_eq!(env_var_name("env"), None);
    assert_eq!(env_var_name("envx:A"), None);
    assert_eq!(env_var_name("sk-123"), None);
}

#[test]
fn resolving_keys() {
    let env = vec![("A".to_string(), "1".to_string())];
    assert_eq!(resolve_api_key("literal", &env), "literal");
    assert_eq!(resolve_api_key("env:A", &env), "1");
    assert_eq!(resolve_api_key("ENV:A", &env), "1");
    assert!(key_is_resolvable("literal", &env));
    assert!(key_is_resolvable("env:A", &env));
    assert!(!key_is_resolvable("env:B", &env));
    assert!(!key_is_resolvable("Env:a", &env));
}

#[test]
fn filters_compile_and_match() {
    assert!(Filter::compile("(").is_none());
    let f = Filter::compile("^a.c$").unwrap();
    assert_eq!(f.pattern(), "^a.c$");
    assert!(f.is_match("abc"));
    assert!(!f.is_match("xabc"));
}

#[test]
fn upstream_settings() {
    let s = UpstreamSettings::new("http://h:1/v1/", Some("sk"), None, Some(5), None);
    assert_eq!(s.base_url, "http://h:1/v1");
    assert_eq!(s.authorization, Some("Bearer sk".to_string()));
    assert_eq!(s.connect_timeout_ms, DEFAULT_CONNECT_TIMEOUT_MS);
    assert_eq!(s.connect_timeout_ms, 30_000);
    assert_eq!(s.read_timeout_ms, 5);
    assert_eq!(s.total_timeout_ms, DEFAULT_TOTAL_TIMEOUT_MS);
    assert_eq!(DEFAULT_READ_TIMEOUT_MS, 300_000);
    assert_eq!(DEFAULT_TOTAL_TIMEOUT_MS, 600_000);
    assert_eq!(s.endpoint("/chat/completions"), "http://h:1/v1/chat/completions");
    let n = UpstreamSettings::new("http://h", None, Some(1), Some(2), Some(3));
    assert_eq!(n.authorization, None);
    assert_eq!((n.connect_timeout_ms, n.read_timeout_ms, n.total_timeout_ms), (1, 2, 3));
    assert_eq!(n.endpoint("/models"), "http://h/models");
}

#[test]
fn hop_by_hop_headers() {
    for h in [
        "transfer-encoding",
        "te",
        "connection",
        "trailer",
        "upgrade",
        "proxy-authorization",
        "proxy-authenticate",
        "keep-alive",
    ] {
        assert!(is_hop_by_hop(h));
    }
    assert!(!is_hop_by_hop("content-type"));
    assert!(!is_hop_by_hop("authorization"));
    assert!(!is_hop_by_hop("t"));
}

#[test]
fn setting_sources() {
    assert!(matches!(
        setting_source(Some("a".to_string()), Some("B".to_string())),
        SettingSource::Given(v) if v == "a"
    ));
    assert!(matches!(setting_source(None, Some("B".to_string())), SettingSource::FromEnv(v) if v == "B"));
    assert!(matches!(setting_source(None, None), SettingSource::Default));
    assert_eq!(default_base_url_string(), "http://localhost:8080/v1");
}

#[test]
fn first_value_of_a_repeated_variable_counts() {
    let env = vec![
        ("A".to_string(), "1".to_string()),
        ("B".to_string(), "2".to_string()),
        ("A".to_string(), "3".to_string()),
    ];
    assert_eq!(lookup_env(&env, &"A".to_string()), Some("1".to_string()));
    assert_eq!(lookup_env(&env, &"B".to_string()), Some("2".to_string()));
    assert_eq!(lookup_env(&env, &"C".to_string()), None);
}
