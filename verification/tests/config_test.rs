use failover_proxy::config::{
    default_rate, default_triggers, expand_path, expand_path_with, AuthConfig, Backend, Config, FailoverConfig,
    FaultInjectionConfig, FaultRule, KeyError, LoadError, ProxyConfig, SecretsConfig,
};
use failover_proxy::rate::{Rate, ONE};
use failover_proxy::secrets::{lookup_field, resolve_ref, RefError, SecretsSource};
use failover_proxy::table::Table;

fn backend(name: &str, auth: AuthConfig) -> Backend {
    Backend {
        name: name.to_string(),
        base_url: "https://up.example/".to_string(),
        auth,
        credentials_file: None,
        key: None,
        model_map: Table::new(),
        allowed_path_prefixes: None,
    }
}

fn config(backends: Vec<Backend>) -> Config {
    Config {
        proxy: ProxyConfig { listen: "127.0.0.1:1".to_string() },
        backends,
        failover: FailoverConfig { order: vec![], triggers: default_triggers() },
        fault_injection: FaultInjectionConfig::default(),
        secrets: None,
    }
}

fn text_source(text: &str) -> SecretsSource {
    SecretsSource::Text { path: "/s.toml".to_string(), text: text.to_string() }
}

#[test]
fn default_prefixes_follow_the_auth_kind() {
    assert!(backend("a", AuthConfig::Oauth).effective_allowed_path_prefixes().is_empty());
    assert_eq!(
        backend("a", AuthConfig::ApiKey).effective_allowed_path_prefixes(),
        vec!["/v1/messages".to_string()]
    );
    assert_eq!(AuthConfig::default(), AuthConfig::Oauth);
}

#[test]
fn configured_prefixes_win() {
    let mut b = backend("a", AuthConfig::ApiKey);
    b.allowed_path_prefixes = Some(vec!["/x".to_string(), "/y".to_string()]);
    assert_eq!(b.effective_allowed_path_prefixes(), vec!["/x".to_string(), "/y".to_string()]);
    assert!(b.allows("/y/z"));
    assert!(!b.allows("/v1/messages"));
    b.allowed_path_prefixes = Some(vec![]);
    assert!(b.allows("/oauth/token"));
}

#[test]
fn api_key_backends_get_inference_paths_only() {
    let b = backend("a", AuthConfig::ApiKey);
    assert!(b.allows("/v1/messages?beta=true"));
    assert!(b.allows("/v1/messages/count_tokens"));
    assert!(!b.allows("/oauth/token"));
    assert!(!b.allows("/v1/message"));
    assert!(backend("b", AuthConfig::Oauth).allows("/oauth/token"));
}

#[test]
fn defaults_have_their_values() {
    assert_eq!(default_triggers(), vec![500, 502, 503, 504, 429, 529]);
    assert_eq!(default_rate(), Rate { bits: 1.0f64.to_bits() });
    assert_eq!(ONE, 1.0f64.to_bits());
}

#[test]
fn last_rule_for_a_backend_counts() {
    let rule = |name: &str, status: u16| FaultRule {
        backend: name.to_string(),
        status,
        rate: default_rate(),
    };
    let faults = FaultInjectionConfig {
        enabled: false,
        rules: vec![rule("a", 500), rule("b", 429), rule("a", 503)],
    };
    let map = faults.as_map();
    assert_eq!(map.get("a").unwrap().status, 503);
    assert_eq!(map.get("b").unwrap().status, 429);
    assert!(map.get("c").is_none());
    assert_eq!(map.entries().len(), 2);
}

#[test]
fn plain_values_resolve_to_themselves() {
    for v in ["sk-1", "", "$REF", "x$REF:a"] {
        assert_eq!(resolve_ref(v, &SecretsSource::NotConfigured).unwrap(), v);
    }
}

#[test]
fn references_resolve_to_strings() {
    let source = text_source("top = \"t\"\n[a.b]\nkey = \"secret\"\n");
    assert_eq!(resolve_ref("$REF:a.b.key", &source).unwrap(), "secret");
    assert_eq!(resolve_ref("$REF:top", &source).unwrap(), "t");
}

#[test]
fn references_fail_with_their_reasons() {
    let e = resolve_ref("$REF:a", &SecretsSource::NotConfigured).unwrap_err();
    assert!(matches!(e, RefError::NoSource));
    assert_eq!(e.message(), "$REF: indirection requires [secrets].source in config");

    let unreadable = SecretsSource::Unreadable { path: "/s.toml".to_string() };
    let e = resolve_ref("$REF:a", &unreadable).unwrap_err();
    assert!(matches!(e, RefError::Unreadable { .. }));
    assert_eq!(e.message(), "reading secrets source /s.toml");

    let e = resolve_ref("$REF:a", &text_source("= nonsense")).unwrap_err();
    assert!(matches!(e, RefError::Malformed { .. }));
    assert_eq!(e.message(), "parsing secrets source /s.toml");

    let source = text_source("[a]\nn = 3\n");
    let e = resolve_ref("$REF:a.b.c", &source).unwrap_err();
    assert!(matches!(e, RefError::MissingSegment { .. }));
    assert_eq!(
        e.message(),
        "field path 'a.b.c' not found in /s.toml (missing segment 'b')"
    );

    let e = resolve_ref("$REF:a.n", &source).unwrap_err();
    assert!(matches!(e, RefError::NotAString { .. }));
    assert_eq!(e.message(), "field 'a.n' in /s.toml is not a string");

    let e = resolve_ref("$REF:", &source).unwrap_err();
    assert_eq!(e.message(), "field path '' not found in /s.toml (missing segment '')");
}

#[test]
fn fields_are_looked_up_in_values() {
    let mut inner = toml::map::Map::new();
    inner.insert("k".to_string(), toml::Value::String("v".to_string()));
    let mut outer = toml::map::Map::new();
    outer.insert("t".to_string(), toml::Value::Table(inner));
    let root = toml::Value::Table(outer);
    assert_eq!(lookup_field(&root, "t.k", "f").unwrap(), "v");
    assert!(matches!(lookup_field(&root, "t", "f"), Err(RefError::NotAString { .. })));
    assert!(matches!(lookup_field(&root, "t.k.x", "f"), Err(RefError::MissingSegment { .. })));
    assert!(matches!(lookup_field(&root, "t..k", "f"), Err(RefError::MissingSegment { .. })));
}

#[test]
fn configurations_resolve_all_backends() {
    let mut a = backend("a", AuthConfig::Oauth);
    a.credentials_file = Some("$REF:files.a".to_string());
    let mut b = backend("b", AuthConfig::ApiKey);
    b.key = Some("$REF:keys.b".to_string());
    let source = text_source("[files]\na = \"~/c.json\"\n[keys]\nb = \"sk\"\n");
    let cfg = Config::load(config(vec![a, b]), &source).unwrap();
    assert_eq!(cfg.backends[0].credentials_file.as_deref(), Some("~/c.json"));
    assert_eq!(cfg.backends[0].key, None);
    assert_eq!(cfg.backends[1].key.as_deref(), Some("sk"));
}

#[test]
fn resolution_stops_at_the_first_failure() {
    let mut a = backend("a", AuthConfig::Oauth);
    a.credentials_file = Some("$REF:no".to_string());
    a.key = Some("$REF:yes".to_string());
    let mut b = backend("b", AuthConfig::ApiKey);
    b.key = Some("$REF:yes".to_string());
    let mut cfg = config(vec![a, b]);
    let e = cfg.resolve_refs(&text_source("yes = \"1\"\n")).unwrap_err();
    assert!(matches!(e, RefError::MissingSegment { .. }));
    assert_eq!(cfg.backends[0].credentials_file, None);
    assert_eq!(cfg.backends[0].key.as_deref(), Some("$REF:yes"));
    assert_eq!(cfg.backends[1].key.as_deref(), Some("$REF:yes"));
    assert!(Config::load(cfg, &SecretsSource::NotConfigured).is_err());
}

#[test]
fn first_backend_of_a_name_is_found() {
    let mut a = backend("a", AuthConfig::Oauth);
    a.base_url = "first".to_string();
    let cfg = config(vec![backend("x", AuthConfig::Oauth), a, backend("a", AuthConfig::Oauth)]);
    assert_eq!(cfg.find("a").unwrap().base_url, "first");
    assert!(cfg.find("b").is_none());
}

#[test]
fn keys_resolve_again_from_disk() {
    let running = config(vec![backend("b", AuthConfig::ApiKey)]);
    let mut declared = backend("b", AuthConfig::ApiKey);
    declared.key = Some("$REF:k".to_string());
    let disk = Ok(config(vec![declared]));
    let source = text_source("k = \"new\"\n");
    assert_eq!(running.resolve_backend_key("b", &disk, &source).unwrap(), "new");
}

#[test]
fn keys_fail_with_their_reasons() {
    let running = config(vec![backend("b", AuthConfig::ApiKey)]);
    let none = SecretsSource::NotConfigured;

    let unread = Err(LoadError::Reading { path: "/c".to_string() });
    let e = running.resolve_backend_key("z", &unread, &none).unwrap_err();
    assert!(matches!(e, KeyError::NotFound { .. }));
    assert_eq!(e.message(), "backend 'z' not found");

    let e = running.resolve_backend_key("b", &unread, &none).unwrap_err();
    assert!(matches!(e, KeyError::Load(LoadError::Reading { .. })));
    assert_eq!(e.message(), "reading config from /c");
    let e = running.resolve_backend_key("b", &Err(LoadError::Parsing), &none).unwrap_err();
    assert_eq!(e.message(), "parsing config TOML");

    let e = running.resolve_backend_key("b", &Ok(config(vec![])), &none).unwrap_err();
    assert!(matches!(e, KeyError::NotOnDisk { .. }));
    assert_eq!(e.message(), "backend 'b' not in on-disk config");

    let disk = Ok(config(vec![backend("b", AuthConfig::ApiKey)]));
    let e = running.resolve_backend_key("b", &disk, &none).unwrap_err();
    assert!(matches!(e, KeyError::NoKey { .. }));
    assert_eq!(e.message(), "backend 'b' has no key field");

    let mut declared = backend("b", AuthConfig::ApiKey);
    declared.key = Some("$REF:k".to_string());
    let e = running.resolve_backend_key("b", &Ok(config(vec![declared])), &none).unwrap_err();
    assert!(matches!(e, KeyError::Reference(RefError::NoSource)));
    assert_eq!(e.message(), "$REF: indirection requires [secrets].source in config");
}

#[test]
fn home_directories_are_expanded() {
    assert_eq!(expand_path("/etc/x"), "/etc/x");
    assert_eq!(expand_path("~other/x"), "~other/x");
    assert_eq!(expand_path("a~"), "a~");
    assert_eq!(expand_path(""), "");
    assert_eq!(expand_path("~/x"), shellexpand::tilde("~/x").into_owned());
    let mut cfg = config(vec![]);
    assert!(cfg.secrets_source_path().is_none());
    cfg.secrets = Some(SecretsConfig { source: "~/s.toml".to_string() });
    assert_eq!(
        cfg.secrets_source_path(),
        Some(shellexpand::tilde("~/s.toml").into_owned())
    );
}

#[test]
fn addresses_can_be_references() {
    let mut a = backend("a", AuthConfig::ApiKey);
    a.base_url = "$REF:up.url".to_string();
    a.key = Some("k".to_string());
    let cfg = Config::load(config(vec![a]), &text_source("up={url=\"https://x\"}\n")).unwrap();
    assert_eq!(cfg.backends[0].base_url, "https://x");
    assert_eq!(cfg.backends[0].key.as_deref(), Some("k"));
    assert_eq!(cfg.proxy.listen, "127.0.0.1:1");
}

#[test]
fn every_text_can_be_a_reference() {
    let mut a = backend("$REF:n", AuthConfig::ApiKey);
    a.model_map.insert("opus".to_string(), "$REF:m".to_string());
    a.model_map.insert("$REF:m".to_string(), "plain".to_string());
    a.allowed_path_prefixes = Some(vec!["$REF:p".to_string(), "/q".to_string()]);
    let mut parsed = config(vec![a]);
    parsed.proxy.listen = "$REF:l".to_string();
    parsed.failover.order = vec!["$REF:n".to_string()];
    parsed.failover.triggers = vec![418];
    parsed.fault_injection = FaultInjectionConfig {
        enabled: true,
        rules: vec![FaultRule { backend: "$REF:n".to_string(), status: 500, rate: default_rate() }],
    };
    parsed.secrets = Some(SecretsConfig { source: "$REF:s".to_string() });
    let source = text_source("n=\"a\"\nm=\"up/opus\"\np=\"/v2\"\nl=\"0:1\"\n");
    let cfg = Config::load(parsed, &source).unwrap();
    assert_eq!(cfg.proxy.listen, "0:1");
    let b = cfg.find("a").unwrap();
    assert_eq!(b.model_map.get("opus").unwrap(), "up/opus");
    assert_eq!(b.model_map.get("$REF:m").unwrap(), "plain");
    assert_eq!(b.effective_allowed_path_prefixes(), vec!["/v2", "/q"]);
    assert_eq!(cfg.failover.order, vec!["a"]);
    assert_eq!(cfg.failover.triggers, vec![418]);
    assert_eq!(cfg.fault_injection.rules[0].backend, "a");
    assert!(cfg.fault_injection.enabled);
    assert_eq!(cfg.secrets.unwrap().source, "$REF:s");
}

#[test]
fn credentials_and_keys_resolve_before_other_texts() {
    let mut a = backend("a", AuthConfig::Oauth);
    a.base_url = "$REF:first".to_string();
    a.key = Some("$REF:second".to_string());
    let mut cfg = config(vec![a]);
    cfg.proxy.listen = "$REF:third".to_string();
    let missing = |e: RefError| match e {
        RefError::MissingSegment { segment, .. } => segment,
        _ => panic!(),
    };
    assert_eq!(missing(cfg.resolve_refs(&text_source("")).unwrap_err()), "second");
    cfg.backends[0].key = Some("$REF:second".to_string());
    let source = text_source("second=\"k\"\nfirst=\"u\"\n");
    assert_eq!(missing(cfg.resolve_refs(&source).unwrap_err()), "third");
    assert_eq!(cfg.backends[0].key.as_deref(), Some("k"));
    assert_eq!(cfg.backends[0].base_url, "$REF:first");
}

#[test]
fn keys_resolve_as_they_were_loaded() {
    let declared = || {
        let mut b = backend("$REF:n", AuthConfig::ApiKey);
        b.key = Some("$REF:k".to_string());
        config(vec![b])
    };
    let source = text_source("n=\"b\"\nk=\"sk\"\n");
    let cfg = Config::load(declared(), &source).unwrap();
    let key = cfg.resolve_backend_key("b", &Ok(declared()), &source).unwrap();
    assert_eq!(Some(&key), cfg.find("b").unwrap().key.as_ref());
}

#[test]
fn given_home_directories_are_expanded() {
    assert_eq!(expand_path_with("~", Some("/h")), "/h");
    assert_eq!(expand_path_with("~/a", Some("/h")), "/h/a");
    assert_eq!(expand_path_with("~/a", None), "~/a");
    assert_eq!(expand_path_with("~b/a", Some("/h")), "~b/a");
    assert_eq!(expand_path_with("/~/a", Some("/h")), "/~/a");
    let mut cfg = config(vec![]);
    assert!(cfg.secrets_source_path_with(Some("/h")).is_none());
    cfg.secrets = Some(SecretsConfig { source: "~/s".to_string() });
    assert_eq!(cfg.secrets_source_path_with(Some("/h")), Some("/h/s".to_string()));
}
