use simple_llm_proxy::config::{
    AuthToken, Config, ConfigError, ModelConfig, ModelListing, ModelsResponse, PopulateError,
    ProcessedConfig, ProviderConfig, RemapConfig,
};

fn s(v: &str) -> String {
    v.to_string()
}

fn provider(name: &str, base_url: &str, api_key: Option<&str>) -> ProviderConfig {
    ProviderConfig { name: s(name), base_url: s(base_url), api_key: api_key.map(s) }
}

fn model(name: &str, provider: &str, model: &str) -> ModelConfig {
    ModelConfig { name: s(name), provider: s(provider), model: s(model) }
}

fn env(vars: &[(&str, &str)]) -> Vec<(String, String)> {
    vars.iter().map(|(k, v)| (s(k), s(v))).collect()
}

/// Two providers (one keyed through `env:DUMMY_API_KEY`) and a model on each.
fn basic_config() -> Config {
    Config {
        connect_timeout: None,
        read_timeout: None,
        total_timeout: None,
        providers: vec![
            provider("local", "http://localhost:8080/v1/", None),
            provider("remote", "https://api.example.com/v1", Some("env:DUMMY_API_KEY")),
        ],
        models: vec![
            model("local/model", "local", "qwen3-8b"),
            model("remote/model", "remote", "gpt-oss-120b"),
        ],
        remaps: None,
        require_auth: None,
    }
}

/// The basic configuration with two client tokens, one from the environment.
fn auth_config() -> Config {
    let mut c = basic_config();
    c.require_auth = Some(vec![
        AuthToken { id: s("static"), token: s("my-12345") },
        AuthToken { id: s("from-env"), token: s("env:MY_ENV_TOKEN") },
    ]);
    c
}

/// Two remaps: `remote/` keeps models matching `^mymodel`, `remote2/` keeps all.
fn remap_config() -> Config {
    Config {
        connect_timeout: Some(10),
        read_timeout: None,
        total_timeout: None,
        providers: vec![
            provider("local", "http://localhost:8080/v1", None),
            provider("remote", "https://remote.example.com/v1//", Some("sk-remote")),
            provider("remote2", "https://remote2.example.com/v1", None),
        ],
        models: vec![model("local/model", "local", "qwen3-8b")],
        remaps: Some(vec![
            RemapConfig { prefix: s("remote/"), provider: s("remote"), filters: Some(vec![s("^mymodel")]) },
            RemapConfig { prefix: s("remote2/"), provider: s("remote2"), filters: None },
        ]),
        require_auth: None,
    }
}

fn process(c: Config, e: &Vec<(String, String)>) -> ProcessedConfig {
    match c.try_process_config(e) {
        Ok(p) => p,
        Err(err) => panic!("{}", err.message()),
    }
}

fn listing(ids: &[&str]) -> ModelsResponse {
    ModelsResponse { data: Some(ids.iter().map(|i| ModelListing { id: Some(s(i)) }).collect()) }
}

#[test]
#[should_panic(expected = "Environment variable 'DUMMY_API_KEY'")]
fn test_missing_env() {
    let config = basic_config();
    let _ = process(config, &env(&[]));
}

#[test]
fn test_basic_env() {
    let processed = process(basic_config(), &env(&[("DUMMY_API_KEY", "sk-54321")]));
    let mut models = processed.get_models();
    models.sort();
    assert_eq!(models, vec![s("local/model"), s("remote/model")]);
    let local = processed.get_target("local/model").unwrap();
    assert_eq!(local.base_url, "http://localhost:8080/v1");
    assert_eq!(local.api_key, None);
    assert_eq!(local.model, "qwen3-8b");
    let remote = processed.get_target("remote/model").unwrap();
    assert_eq!(remote.base_url, "https://api.example.com/v1");
    assert_eq!(remote.api_key, Some(s("sk-54321")));
    assert_eq!(remote.model, "gpt-oss-120b");
    assert!(processed.remaps.is_empty());
}

#[test]
fn test_auth_tokens() {
    let processed = process(
        auth_config(),
        &env(&[("DUMMY_API_KEY", "sk-54321"), ("MY_ENV_TOKEN", "my-98765")]),
    );
    assert!(processed.auth_check(Some("my-12345")));
    assert!(processed.auth_check(Some("my-98765")));
    assert!(!processed.auth_check(Some("env:MY_ENV_TOKEN")));
    assert!(!processed.auth_check(Some("static")));
    assert_eq!(processed.token_id("my-12345"), Some(s("static")));
    assert_eq!(processed.token_id("my-98765"), Some(s("from-env")));
    assert_eq!(processed.token_id("env:MY_ENV_TOKEN"), None);
    assert_eq!(processed.token_id("static"), None);
    let mut models = processed.get_models();
    models.sort();
    assert_eq!(models, vec![s("local/model"), s("remote/model")]);
    let local = processed.get_target("local/model").unwrap();
    assert_eq!(
        (local.base_url.as_str(), local.api_key.clone(), local.model.as_str()),
        ("http://localhost:8080/v1", None, "qwen3-8b")
    );
    let remote = processed.get_target("remote/model").unwrap();
    assert_eq!(
        (remote.base_url.as_str(), remote.api_key.clone(), remote.model.as_str()),
        ("https://api.example.com/v1", Some(s("sk-54321")), "gpt-oss-120b")
    );
}

#[test]
fn test_get_models() {
    let processed = process(basic_config(), &env(&[("DUMMY_API_KEY", "sk-54321")]));
    let mut models = processed.get_models();
    models.sort();
    assert_eq!(models, vec![s("local/model"), s("remote/model")]);
}

#[test]
fn test_get_target_found() {
    let processed = process(basic_config(), &env(&[("DUMMY_API_KEY", "sk-54321")]));
    let local = processed.get_target("local/model").unwrap();
    assert_eq!(
        (local.base_url.as_str(), local.api_key.clone(), local.model.as_str()),
        ("http://localhost:8080/v1", None, "qwen3-8b")
    );
    let remote = processed.get_target("remote/model").unwrap();
    assert_eq!(
        (remote.base_url.as_str(), remote.api_key.clone(), remote.model.as_str()),
        ("https://api.example.com/v1", Some(s("sk-54321")), "gpt-oss-120b")
    );
}

#[test]
fn test_get_target_not_found() {
    let processed = process(basic_config(), &env(&[("DUMMY_API_KEY", "sk-54321")]));
    assert!(processed.get_target("somerandommodel").is_none());
}

#[test]
fn test_auth_check_not_required() {
    let processed = process(basic_config(), &env(&[("DUMMY_API_KEY", "sk-54321")]));
    assert!(processed.auth_check(None));
    assert!(processed.auth_check(Some("my-invalid-key")));
    assert!(processed.auth_check(Some("my-12345")));
    assert!(processed.auth_check(Some("my-98765")));
}

#[test]
fn test_auth_check_required() {
    let processed = process(
        auth_config(),
        &env(&[("DUMMY_API_KEY", "sk-54321"), ("MY_ENV_TOKEN", "my-98765")]),
    );
    assert!(!processed.auth_check(None));
    assert!(!processed.auth_check(Some("my-invalid-key")));
    assert!(processed.auth_check(Some("my-12345")));
    assert!(processed.auth_check(Some("my-98765")));
}

#[test]
fn test_remaps() {
    let processed = process(remap_config(), &env(&[]));
    let prefixes: Vec<String> = processed.remaps.iter().map(|r| r.prefix()).collect();
    assert_eq!(prefixes, vec![s("remote/"), s("remote2/")]);
    assert_eq!(processed.remap_count(), 2);
    assert_eq!(processed.remap_prefix(0), "remote/");
    assert_eq!(processed.remap_prefix(1), "remote2/");
    assert!(processed.remap_selects(0, "mymodel1"));
    assert!(!processed.remap_selects(0, "other"));
    assert!(processed.remap_selects(1, "other"));
    assert_eq!(processed.get_models(), vec![s("local/model")]);
    let local = processed.get_target("local/model").unwrap();
    assert_eq!(
        (local.base_url.as_str(), local.api_key.clone(), local.model.as_str()),
        ("http://localhost:8080/v1", None, "qwen3-8b")
    );
    // The remaps route to their providers: trimmed URL, resolved key.
    let mut processed = processed;
    processed.populate_remap(0, &listing(&["mymodel-a"])).unwrap();
    processed.populate_remap(1, &listing(&["b"])).unwrap();
    processed.update_models();
    let a = processed.get_target("remote/mymodel-a").unwrap();
    assert_eq!(
        (a.base_url.as_str(), a.api_key.clone(), a.model.as_str()),
        ("https://remote.example.com/v1", Some(s("sk-remote")), "mymodel-a")
    );
    let b = processed.get_target("remote2/b").unwrap();
    assert_eq!(
        (b.base_url.as_str(), b.api_key.clone(), b.model.as_str()),
        ("https://remote2.example.com/v1", None, "b")
    );
    assert!(processed.auth_check(None));
}

#[test]
fn test_is_model_selected() {
    let processed = process(remap_config(), &env(&[]));

    // The "remote/" remap has a filter.
    let remap = processed.remaps.iter().find(|r| r.prefix() == "remote/").unwrap();
    assert!(remap.is_model_selected("mymodel1234"));
    assert!(!remap.is_model_selected("blahmymodel1234"));
    assert!(!remap.is_model_selected("someothermodel"));

    // The "remote2/" remap doesn't.
    let remap = processed.remaps.iter().find(|r| r.prefix() == "remote2/").unwrap();
    assert!(remap.is_model_selected("mymodel1234"));
    assert!(remap.is_model_selected("blahmymodel1234"));
    assert!(remap.is_model_selected("someothermodel"));
}

#[test]
fn test_basic_remaps_no_match() {
    let mut processed = process(remap_config(), &env(&[]));
    processed.remaps[0].populate(&listing(&["blahmodel"])).unwrap();
    processed.remaps[1].populate(&listing(&["nofilter"])).unwrap();
    processed.update_models();
    assert_eq!(processed.get_models(), vec![s("remote2/nofilter"), s("local/model")]);
    let t = processed.get_target("remote2/nofilter").unwrap();
    assert_eq!(t.base_url, "https://remote2.example.com/v1");
    assert_eq!(t.api_key, None);
    assert_eq!(t.model, "nofilter");
    assert!(processed.get_target("remote/blahmodel").is_none());
}

#[test]
fn test_basic_remaps_match() {
    let mut processed = process(remap_config(), &env(&[]));
    processed.remaps[0].populate(&listing(&["blahmodel", "mymodel123"])).unwrap();
    processed.remaps[1].populate(&listing(&["nofilter"])).unwrap();
    processed.update_models();
    assert_eq!(
        processed.get_models(),
        vec![s("remote/mymodel123"), s("remote2/nofilter"), s("local/model")]
    );
    let t = processed.get_target("remote/mymodel123").unwrap();
    assert_eq!(t.base_url, "https://remote.example.com/v1");
    assert_eq!(t.api_key, Some(s("sk-remote")));
    assert_eq!(t.model, "mymodel123");
    assert!(processed.get_target("remote/blahmodel").is_none());
}

// ----- further cases -----

#[test]
fn later_provider_wins_and_unknown_provider_is_dropped() {
    let c = Config {
        connect_timeout: None,
        read_timeout: None,
        total_timeout: None,
        providers: vec![provider("p", "http://first/", None), provider("p", "http://second///", Some("k"))],
        models: vec![model("a", "p", "m1"), model("b", "nope", "m2"), model("a", "p", "m3")],
        remaps: Some(vec![RemapConfig { prefix: s("x/"), provider: s("nope"), filters: None }]),
        require_auth: None,
    };
    let p = process(c, &env(&[]));
    assert_eq!(p.get_models(), vec![s("a")]);
    let t = p.get_target("a").unwrap();
    assert_eq!(t.base_url, "http://second");
    assert_eq!(t.api_key, Some(s("k")));
    assert_eq!(t.model, "m3");
    assert!(p.get_target("b").is_none());
    assert!(p.remaps.is_empty());
}

#[test]
fn duplicate_model_keeps_its_place() {
    let c = Config {
        connect_timeout: None,
        read_timeout: None,
        total_timeout: None,
        providers: vec![provider("p", "http://u", None)],
        models: vec![model("a", "p", "1"), model("b", "p", "2"), model("a", "p", "3")],
        remaps: None,
        require_auth: None,
    };
    let p = process(c, &env(&[]));
    assert_eq!(p.get_models(), vec![s("a"), s("b")]);
    assert_eq!(p.get_target("a").unwrap().model, "3");
}

#[test]
fn env_prefix_is_case_insensitive() {
    let mut c = basic_config();
    c.providers[1].api_key = Some(s("EnV:OTHER"));
    let p = process(c, &env(&[("OTHER", "first"), ("OTHER", "second")]));
    assert_eq!(p.get_target("remote/model").unwrap().api_key, Some(s("first")));
}

#[test]
fn missing_token_variable_is_reported() {
    let c = auth_config();
    match c.try_process_config(&env(&[("DUMMY_API_KEY", "sk")])) {
        Err(ConfigError::MissingEnvVar(name)) => assert_eq!(name, "MY_ENV_TOKEN"),
        _ => panic!("expected a missing variable"),
    }
}

#[test]
fn provider_variable_is_reported_before_token_variable() {
    let c = auth_config();
    let e = c.find_problem(&env(&[]));
    match e {
        Some(err) => assert_eq!(err.message(), "Environment variable 'DUMMY_API_KEY' not found"),
        None => panic!("expected a problem"),
    }
}

#[test]
fn bad_filter_is_reported() {
    let mut c = remap_config();
    c.remaps.as_mut().unwrap()[1].filters = Some(vec![s("ok.*"), s("(unclosed")]);
    match c.try_process_config(&env(&[])) {
        Err(ConfigError::BadFilter(p)) => assert_eq!(p, "(unclosed"),
        _ => panic!("expected a bad filter"),
    }
}

#[test]
fn bad_filter_of_dropped_remap_is_ignored() {
    let mut c = remap_config();
    c.remaps.as_mut().unwrap().push(RemapConfig {
        prefix: s("gone/"),
        provider: s("unknown"),
        filters: Some(vec![s("(unclosed")]),
    });
    assert!(c.find_problem(&env(&[])).is_none());
    let p = c.process_config(&env(&[]));
    assert_eq!(p.remaps.len(), 2);
}

#[test]
fn populate_without_data_fails() {
    let mut p = process(remap_config(), &env(&[]));
    let r = p.remaps[1].populate(&ModelsResponse { data: None });
    assert!(r == Err(PopulateError::MissingDataArray));
    assert_eq!(PopulateError::MissingDataArray.message(), "missing data array");
}

#[test]
fn populate_with_missing_id_fails_and_keeps_models() {
    let mut p = process(remap_config(), &env(&[]));
    p.remaps[1].populate(&listing(&["kept"])).unwrap();
    let bad = ModelsResponse {
        data: Some(vec![ModelListing { id: Some(s("x")) }, ModelListing { id: None }]),
    };
    let r = p.remaps[1].populate(&bad);
    assert!(r == Err(PopulateError::MissingModelId));
    assert_eq!(PopulateError::MissingModelId.message(), "missing model id");
    p.update_models();
    assert_eq!(p.get_models(), vec![s("remote2/kept"), s("local/model")]);
}

#[test]
fn config_model_wins_over_remap_model() {
    let mut c = remap_config();
    c.models.push(model("remote2/shared", "local", "local-shared"));
    let mut p = process(c, &env(&[]));
    p.remaps[1].populate(&listing(&["shared", "other"])).unwrap();
    p.update_models();
    assert_eq!(
        p.get_models(),
        vec![s("remote2/shared"), s("remote2/other"), s("local/model")]
    );
    let t = p.get_target("remote2/shared").unwrap();
    assert_eq!(t.model, "local-shared");
    assert_eq!(t.base_url, "http://localhost:8080/v1");
}

#[test]
fn update_right_after_processing_keeps_models() {
    let mut p = process(remap_config(), &env(&[]));
    let before = p.get_models();
    p.update_models();
    assert_eq!(p.get_models(), before);
}

#[test]
fn env_error_message() {
    let e = ConfigError::MissingEnvVar(s("X"));
    assert_eq!(e.message(), "Environment variable 'X' not found");
    let e = ConfigError::BadFilter(s("(a"));
    assert_eq!(e.message(), "bad regex: '(a'");
}

#[test]
fn populate_remap_errors_leave_everything() {
    let mut p = process(remap_config(), &env(&[]));
    assert!(p.populate_remap(1, &ModelsResponse { data: None }) == Err(PopulateError::MissingDataArray));
    let bad = ModelsResponse { data: Some(vec![ModelListing { id: None }]) };
    assert!(p.populate_remap(0, &bad) == Err(PopulateError::MissingModelId));
    p.update_models();
    assert_eq!(p.get_models(), vec![s("local/model")]);
}

#[test]
fn only_configured_tokens_are_accepted() {
    let p = process(
        auth_config(),
        &env(&[("DUMMY_API_KEY", "sk"), ("MY_ENV_TOKEN", "tok")]),
    );
    assert!(p.auth_check(Some("tok")));
    assert!(!p.auth_check(Some("TOK")));
    assert!(!p.auth_check(Some("from-env")));
    assert!(!p.auth_check(Some("")));
    assert!(!p.auth_check(None));
}
