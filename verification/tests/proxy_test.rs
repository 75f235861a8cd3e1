use failover_proxy::config::{
    default_rate, default_triggers, AuthConfig, Backend, Config, FailoverConfig,
    FaultInjectionConfig, FaultRule, KeyError, ProxyConfig,
};
use failover_proxy::credentials::{CredentialsError, OAuthCredential};
use failover_proxy::mgmt::{
    plan_reload, reload, set_fault, status, FaultReply, FaultRequest, Material, ReloadPlan,
    ReloadReply,
};
use failover_proxy::proxy::{
    answer_status, current_oauth_token, reload_token, startup, Action, AppState, BackendAuth,
    BackendState, Dispatch, Event, Phase, Request, Startup, StartupError, OAUTH_BETA,
};
use failover_proxy::rate::Rate;
use failover_proxy::table::Table;

const NOW: u64 = 1000;

fn backend(name: &str, auth: AuthConfig) -> Backend {
    Backend {
        name: name.to_string(),
        base_url: format!("https://{name}.example/"),
        auth,
        credentials_file: Some(format!("/{name}.json")),
        key: Some(format!("key-{name}")),
        model_map: Table::new(),
        allowed_path_prefixes: None,
    }
}

fn token(access: &str, expires_at: u64) -> OAuthCredential {
    OAuthCredential {
        access_token: access.to_string(),
        refresh_token: "r".to_string(),
        expires_at,
    }
}

fn oauth(name: &str, access: &str, expires_at: u64) -> BackendState {
    BackendState {
        auth: BackendAuth::Oauth {
            credentials_file: format!("/{name}.json"),
            token: token(access, expires_at),
        },
    }
}

fn keyed(key: &str) -> BackendState {
    BackendState { auth: BackendAuth::ApiKey { key: key.to_string() } }
}

/// Two OAuth backends `a` and `b`, then `k` with a key.
fn app(order: &[&str]) -> AppState {
    let mut k = backend("k", AuthConfig::ApiKey);
    k.model_map.insert("opus".to_string(), "up/opus".to_string());
    let mut state = AppState::new(Config {
        proxy: ProxyConfig { listen: "l".to_string() },
        backends: vec![backend("a", AuthConfig::Oauth), backend("b", AuthConfig::Oauth), k],
        failover: FailoverConfig {
            order: order.iter().map(|s| s.to_string()).collect(),
            triggers: default_triggers(),
        },
        fault_injection: FaultInjectionConfig::default(),
        secrets: None,
    });
    state.add_backend("a".to_string(), oauth("a", "ta", 2000));
    state.add_backend("b".to_string(), oauth("b", "tb", 2000));
    state.add_backend("k".to_string(), keyed("sk"));
    state
}

fn request(path: &str) -> Request {
    Request::new(Some(path), b"{\"model\":\"opus\"}".to_vec())
}

fn replied(status: u16) -> Event {
    Event::Replied { status: Some(status) }
}

fn rule(name: &str, status: u16, rate: f64) -> FaultRule {
    FaultRule { backend: name.to_string(), status, rate: Rate { bits: rate.to_bits() } }
}

fn requests_of(state: &AppState, name: &str) -> u64 {
    *state.metrics.requests.get(name).unwrap()
}

fn last_status_of(state: &AppState, name: &str) -> u16 {
    *state.metrics.last_status.get(name).unwrap()
}

#[test]
fn first_backend_answers() {
    let mut s = app(&["a", "b"]);
    let r = request("/v1/messages");
    let (d, action) = s.begin(&r, NOW);
    assert_eq!(d, Dispatch { at: 0, phase: Phase::AwaitingFirst });
    match action {
        Action::Send { url, authorization, oauth_beta, body } => {
            assert_eq!(url, "https://a.example/v1/messages");
            assert_eq!(authorization, "Bearer ta");
            assert!(oauth_beta);
            assert_eq!(body, r.body);
        }
        _ => panic!(),
    }
    let (d, action) = s.advance(&r, d, replied(200), NOW);
    assert!(matches!(action, Action::Relay));
    assert_eq!(d.phase, Phase::Finished);
    assert_eq!(requests_of(&s, "a"), 1);
    assert_eq!(requests_of(&s, "b"), 0);
    assert_eq!(last_status_of(&s, "a"), 200);
    assert_eq!(s.metrics.failovers, 0);
    assert_eq!(OAUTH_BETA, "oauth-2025-04-20");
}

#[test]
fn trigger_status_fails_over() {
    let mut s = app(&["a", "k"]);
    let r = request("/v1/messages");
    let (d, _) = s.begin(&r, NOW);
    let (d, action) = s.advance(&r, d, replied(529), NOW);
    assert_eq!(d, Dispatch { at: 1, phase: Phase::AwaitingKeyed });
    match action {
        Action::Send { url, authorization, oauth_beta, body } => {
            assert_eq!(url, "https://k.example/v1/messages");
            assert_eq!(authorization, "Bearer sk");
            assert!(!oauth_beta);
            assert_eq!(body, b"{\"model\":\"up/opus\"}".to_vec());
        }
        _ => panic!(),
    }
    let (_, action) = s.advance(&r, d, replied(500), NOW);
    assert!(matches!(action, Action::Answer { status: 502 }));
    assert_eq!(s.metrics.failovers, 2);
    assert_eq!(last_status_of(&s, "a"), 529);
    assert_eq!(last_status_of(&s, "k"), 500);
}

#[test]
fn silent_backends_are_passed_over() {
    let mut s = app(&["a", "k", "b"]);
    let r = request("/v1/messages");
    let (d, _) = s.begin(&r, NOW);
    let (d, _) = s.advance(&r, d, Event::Replied { status: None }, NOW);
    assert_eq!(d.at, 1);
    let (d, _) = s.advance(&r, d, Event::Replied { status: None }, NOW);
    assert_eq!(d.at, 2);
    assert_eq!(s.metrics.failovers, 0);
    assert_eq!(last_status_of(&s, "a"), 0);
}

#[test]
fn rejected_token_is_reloaded_and_retried_once() {
    let mut s = app(&["a", "b"]);
    let r = request("/x");
    let (d, _) = s.begin(&r, NOW);
    let (d, action) = s.advance(&r, d, replied(401), NOW);
    assert!(matches!(action, Action::LoadCredentials { file } if file == "/a.json"));
    assert_eq!(d, Dispatch { at: 0, phase: Phase::Reloading });
    let (d, action) = s.advance(&r, d, Event::Loaded { loaded: Ok(token("fresh", 9)) }, NOW);
    assert!(matches!(action, Action::Send { authorization, .. } if authorization == "Bearer fresh"));
    assert_eq!(d, Dispatch { at: 0, phase: Phase::AwaitingRetry });
    let (d, action) = s.advance(&r, d, replied(401), NOW);
    assert_eq!(d.at, 1);
    assert!(matches!(action, Action::Send { authorization, .. } if authorization == "Bearer tb"));
    assert_eq!(s.metrics.failovers, 0);
    assert_eq!(last_status_of(&s, "a"), 0);
}

#[test]
fn retry_with_a_fresh_token_is_relayed() {
    let mut s = app(&["a"]);
    let r = request("/x");
    let (d, _) = s.begin(&r, NOW);
    let (d, _) = s.advance(&r, d, replied(401), NOW);
    let failed = Event::Loaded { loaded: Err(CredentialsError::Parsing) };
    let (d, action) = s.advance(&r, d, failed, NOW);
    assert!(matches!(action, Action::Send { authorization, .. } if authorization == "Bearer ta"));
    let (_, action) = s.advance(&r, d, replied(404), NOW);
    assert!(matches!(action, Action::Relay));
    assert_eq!(last_status_of(&s, "a"), 404);
}

#[test]
fn api_key_rejections_are_relayed() {
    let mut s = app(&["k"]);
    let r = request("/v1/messages");
    let (d, _) = s.begin(&r, NOW);
    let (_, action) = s.advance(&r, d, replied(401), NOW);
    assert!(matches!(action, Action::Relay));
    assert_eq!(last_status_of(&s, "k"), 401);
}

#[test]
fn expired_token_is_loaded_before_the_first_try() {
    let mut s = app(&["a"]);
    let r = request("/x");
    let (d, action) = s.begin(&r, 2000);
    assert!(matches!(action, Action::LoadCredentials { file } if file == "/a.json"));
    assert_eq!(d.phase, Phase::Refreshing);
    let (d, action) = s.advance(&r, d, Event::Loaded { loaded: Ok(token("new", 5000)) }, 2000);
    assert!(matches!(action, Action::Send { authorization, .. } if authorization == "Bearer new"));
    assert_eq!(d.phase, Phase::AwaitingFirst);
    let (_, action) = s.begin(&r, 3000);
    assert!(matches!(action, Action::Send { authorization, .. } if authorization == "Bearer new"));
}

#[test]
fn allowlists_undefined_and_unready_backends_are_skipped() {
    let mut s = app(&["ghost", "k", "b"]);
    let r = request("/oauth/token");
    let (d, _) = s.begin(&r, NOW);
    assert_eq!(d.at, 2);
    assert_eq!(requests_of(&s, "k"), 0);

    let mut s = app(&["ghost", "k"]);
    let (_, action) = s.begin(&r, NOW);
    assert!(matches!(action, Action::Answer { status: 502 }));

    let mut s = app(&["a"]);
    s.backends.remove("a");
    let (_, action) = s.begin(&r, NOW);
    assert!(matches!(action, Action::Answer { status: 502 }));
    let (_, action) = app(&[]).begin(&r, NOW);
    assert!(matches!(action, Action::Answer { status: 502 }));
}

#[test]
fn missing_paths_are_the_root() {
    assert_eq!(Request::new(None, vec![]).path_and_query, "/");
}

#[test]
fn fired_fault_with_trigger_status_fails_over() {
    let mut s = app(&["a", "b"]);
    s.faults.insert("a".to_string(), rule("a", 503, 1.0));
    let r = request("/x");
    let (d, action) = s.begin(&r, NOW);
    assert!(matches!(action, Action::Draw));
    let (d, action) = s.advance(&r, d, Event::Drawn { draw: 0.999f64.to_bits() }, NOW);
    assert_eq!(d.at, 1);
    assert!(matches!(action, Action::Send { .. }));
    assert_eq!((s.metrics.faults_injected, s.metrics.failovers), (1, 1));
    assert_eq!(last_status_of(&s, "a"), 503);
    assert_eq!((requests_of(&s, "a"), requests_of(&s, "b")), (1, 1));
}

#[test]
fn fired_fault_without_trigger_is_answered() {
    let mut s = app(&["a", "b"]);
    s.faults.insert("a".to_string(), rule("a", 418, 0.5));
    let r = request("/x");
    let (d, _) = s.begin(&r, NOW);
    let (d2, action) = s.advance(&r, d, Event::Drawn { draw: 0.25f64.to_bits() }, NOW);
    assert!(matches!(action, Action::Answer { status: 418 }));
    assert_eq!(d2.phase, Phase::Finished);
    assert_eq!((s.metrics.faults_injected, s.metrics.failovers), (1, 0));

    let (d, _) = s.begin(&r, NOW);
    let (d, action) = s.advance(&r, d, Event::Drawn { draw: 0.5f64.to_bits() }, NOW);
    assert!(matches!(action, Action::Send { .. }));
    assert_eq!(d.phase, Phase::AwaitingFirst);
    assert_eq!(s.metrics.faults_injected, 1);
}

#[test]
fn impossible_statuses_become_500() {
    assert_eq!(answer_status(99), 500);
    assert_eq!(answer_status(100), 100);
    assert_eq!(answer_status(999), 999);
    assert_eq!(answer_status(1000), 500);
    let mut s = app(&["a"]);
    s.faults.insert("a".to_string(), rule("a", 7, 1.0));
    let r = request("/x");
    let (d, _) = s.begin(&r, NOW);
    let (_, action) = s.advance(&r, d, Event::Drawn { draw: 0 }, NOW);
    assert!(matches!(action, Action::Answer { status: 500 }));
    assert_eq!(last_status_of(&s, "a"), 7);
}

#[test]
fn requests_end_within_six_steps_a_backend() {
    let order = ["a", "b", "k", "a"];
    let mut s = app(&order);
    for name in ["a", "b", "k"] {
        s.faults.insert(name.to_string(), rule(name, 500, 0.0));
    }
    let r = request("/v1/messages");
    let (mut d, mut action) = s.begin(&r, 5000);
    let mut steps = 0;
    loop {
        let event = match action {
            Action::Draw => Event::Drawn { draw: 0 },
            Action::LoadCredentials { .. } => Event::Loaded { loaded: Err(CredentialsError::Parsing) },
            Action::Send { .. } => replied(401),
            Action::Relay | Action::Answer { .. } => break,
        };
        (d, action) = s.advance(&r, d, event, 5000);
        steps += 1;
    }
    assert!(steps <= 6 * order.len());
    assert!(matches!(action, Action::Relay));
    assert_eq!(d.phase, Phase::Finished);
}

#[test]
fn tokens_are_used_until_they_expire() {
    let mut b = oauth("a", "t", 10);
    assert_eq!(current_oauth_token(&b, 9), Some("t".to_string()));
    assert_eq!(current_oauth_token(&b, 10), None);
    assert_eq!(reload_token(&mut b, Err(CredentialsError::Parsing)), "t");
    assert_eq!(reload_token(&mut b, Ok(token("u", 20))), "u");
    assert_eq!(current_oauth_token(&b, 10), Some("u".to_string()));
}

#[test]
fn backends_start_with_what_they_need() {
    assert!(matches!(
        startup(&backend("a", AuthConfig::Oauth)),
        Ok(Startup::LoadCredentials { file }) if file == "/a.json"
    ));
    assert!(matches!(
        startup(&backend("k", AuthConfig::ApiKey)),
        Ok(Startup::Ready { backend: BackendState { auth: BackendAuth::ApiKey { key } } })
            if key == "key-k"
    ));
    let mut bare = backend("x", AuthConfig::Oauth);
    bare.credentials_file = None;
    bare.key = None;
    let e = startup(&bare).err().unwrap();
    assert!(matches!(e, StartupError::NoCredentialsFile { .. }));
    assert_eq!(e.message(), "backend 'x' has no credentials_file field");
    bare.auth = AuthConfig::ApiKey;
    let e = startup(&bare).err().unwrap();
    assert!(matches!(e, StartupError::NoKey { .. }));
    assert_eq!(e.message(), "backend 'x' has no key field");
}

#[test]
fn status_reports_ready_backends() {
    let mut s = app(&["k", "a"]);
    s.backends.remove("b");
    s.faults.insert("a".to_string(), rule("a", 500, 1.0));
    let report = status(&s, 2000);
    assert_eq!(report.backends.len(), 2);
    assert_eq!(report.backends[0].name, "a");
    assert_eq!(report.backends[0].base_url, "https://a.example/");
    assert_eq!(report.backends[0].token_expires_at_ms, Some(2000));
    assert_eq!(report.backends[0].token_expired, Some(true));
    assert_eq!(report.backends[1].name, "k");
    assert_eq!(report.backends[1].token_expired, None);
    assert_eq!(report.failover_order, vec!["k", "a"]);
    assert_eq!(report.active_faults.len(), 1);
    assert_eq!(report.active_faults[0].status, 500);
    assert_eq!(status(&s, 1999).backends[0].token_expired, Some(false));
}

#[test]
fn faults_are_set_and_cleared() {
    let mut s = app(&["a"]);
    let ask = |clear: Option<bool>, status: Option<u16>, rate: Option<f64>| FaultRequest {
        backend: "a".to_string(),
        clear,
        status,
        rate: rate.map(|r| Rate { bits: r.to_bits() }),
    };
    let reply = set_fault(&mut s, ask(Some(false), None, Some(0.5)));
    assert!(matches!(reply, FaultReply::StatusRequired));
    assert_eq!(reply.http_status(), 400);
    assert!(s.faults.is_empty());

    let reply = set_fault(&mut s, ask(Some(false), Some(429), None));
    assert_eq!(reply.http_status(), 200);
    assert!(matches!(reply, FaultReply::InForce { rule } if rule.rate == default_rate()));
    assert_eq!(s.faults.get("a").unwrap().status, 429);

    set_fault(&mut s, ask(Some(false), Some(500), Some(7.0)));
    assert_eq!(s.faults.get("a").unwrap().rate.bits, 1.0f64.to_bits());
    set_fault(&mut s, ask(Some(false), Some(500), Some(-7.0)));
    assert_eq!(s.faults.get("a").unwrap().rate.bits, 0.0f64.to_bits());
    set_fault(&mut s, ask(Some(false), Some(500), Some(0.25)));
    assert_eq!(s.faults.get("a").unwrap().rate.bits, 0.25f64.to_bits());

    let reply = set_fault(&mut s, ask(Some(true), Some(1), None));
    assert!(matches!(reply, FaultReply::Cleared { backend } if backend == "a"));
    assert!(s.faults.is_empty());

    set_fault(&mut s, ask(Some(false), Some(500), None));
    let reply = set_fault(&mut s, ask(None, None, None));
    assert_eq!(reply.http_status(), 200);
    assert!(matches!(reply, FaultReply::Cleared { backend } if backend == "a"));
    assert!(s.faults.is_empty());
}

#[test]
fn reloads_replace_tokens_and_keys() {
    let mut s = app(&["a"]);
    assert!(matches!(plan_reload(&s, "zzz"), ReloadPlan::NotFound));
    assert!(matches!(plan_reload(&s, "a"), ReloadPlan::Credentials { file } if file == "/a.json"));
    assert!(matches!(plan_reload(&s, "k"), ReloadPlan::Key));

    let reply = reload(&mut s, "a", Material::Credential { loaded: Ok(token("n", 77)) });
    assert_eq!(reply.http_status(), 200);
    assert!(matches!(reply, ReloadReply::Reloaded { expires_at_ms: Some(77), .. }));
    let reply = reload(&mut s, "k", Material::Key { resolved: Ok("nk".to_string()) });
    assert!(matches!(reply, ReloadReply::Reloaded { expires_at_ms: None, .. }));
    assert!(matches!(
        &s.backends.get("k").unwrap().auth,
        BackendAuth::ApiKey { key } if key == "nk"
    ));

    let failed = Material::Credential {
        loaded: Err(CredentialsError::Reading { path: "/a.json".to_string() }),
    };
    let reply = reload(&mut s, "a", failed);
    assert_eq!(reply.http_status(), 500);
    assert!(matches!(
        reply,
        ReloadReply::Failed { message } if message == "reading credentials from /a.json"
    ));
    assert_eq!(current_oauth_token(s.backends.get("a").unwrap(), 0), Some("n".to_string()));

    let failed = Material::Key { resolved: Err(KeyError::NoKey { backend: "k".to_string() }) };
    assert!(matches!(
        reload(&mut s, "k", failed),
        ReloadReply::Failed { message } if message == "backend 'k' has no key field"
    ));

    let reply = reload(&mut s, "zzz", Material::Key { resolved: Ok(String::new()) });
    assert_eq!(reply.http_status(), 404);
    assert!(matches!(
        reply,
        ReloadReply::NotFound { message } if message == "backend 'zzz' not found"
    ));
}

#[test]
fn configured_faults_are_in_force_at_the_start() {
    let mut cfg = app(&["a"]).config;
    cfg.fault_injection.rules.push(rule("a", 500, 1.0));
    let s = AppState::new(cfg);
    assert_eq!(s.faults.get("a").unwrap().status, 500);
    assert!(s.backends.is_empty());
}

#[test]
fn concurrent_requests_do_not_disturb_each_other() {
    let mut s = app(&["a", "b"]);
    let r = request("/x");
    let q = request("/y");
    let (d, _) = s.begin(&r, NOW);
    let (e, _) = s.begin(&q, NOW);
    let (e, _) = s.advance(&q, e, replied(401), NOW);
    let (e, _) = s.advance(&q, e, Event::Loaded { loaded: Ok(token("fresh", 9000)) }, NOW);
    let loaded = Material::Credential { loaded: Ok(token("newer", 9000)) };
    reload(&mut s, "a", loaded);
    let (d, action) = s.advance(&r, d, replied(401), NOW);
    assert!(matches!(action, Action::LoadCredentials { file } if file == "/a.json"));
    let failed = Event::Loaded { loaded: Err(CredentialsError::Parsing) };
    let (_, action) = s.advance(&r, d, failed, NOW);
    assert!(matches!(action, Action::Send { url, authorization, .. }
        if url == "https://a.example/x" && authorization == "Bearer newer"));
    let (_, action) = s.advance(&q, e, replied(200), NOW);
    assert!(matches!(action, Action::Relay));
    let b = s.backends.get("b").unwrap();
    assert_eq!(current_oauth_token(b, NOW), Some("tb".to_string()));
}

#[test]
fn managed_rules_and_keys_take_effect() {
    let mut s = app(&["k"]);
    let r = request("/v1/messages");
    reload(&mut s, "k", Material::Key { resolved: Ok("rotated".to_string()) });
    let (_, action) = s.begin(&r, NOW);
    assert!(matches!(action, Action::Send { authorization, .. } if authorization == "Bearer rotated"));
    let ask = FaultRequest {
        backend: "k".to_string(),
        clear: Some(false),
        status: Some(503),
        rate: Some(Rate { bits: 0.5f64.to_bits() }),
    };
    set_fault(&mut s, ask);
    let (d, action) = s.begin(&r, NOW);
    assert!(matches!(action, Action::Draw));
    let rate = Rate { bits: 0.5f64.to_bits() };
    assert_eq!(d.phase, Phase::Drawing { status: 503, rate });
}

#[test]
fn allowlists_look_at_the_path_alone() {
    let mut s = app(&["k", "a"]);
    s.config.backends[2].allowed_path_prefixes = Some(vec!["/v1?x".to_string()]);
    let (d, action) = s.begin(&request("/v1?x=1"), NOW);
    assert_eq!(d.at, 1);
    assert!(matches!(action, Action::Send { url, .. } if url == "https://a.example/v1?x=1"));
    assert_eq!(requests_of(&s, "k"), 0);
    s.config.backends[2].allowed_path_prefixes = Some(vec!["/v1".to_string()]);
    let (d, _) = s.begin(&request("/v1?x=1"), NOW);
    assert_eq!(d.at, 0);
}

#[test]
fn steps_leave_the_start_alone() {
    let mut s = app(&["a"]);
    let start = s.metrics.start_time;
    let r = request("/x");
    let (d, _) = s.begin(&r, NOW);
    s.advance(&r, d, replied(200), NOW);
    reload(&mut s, "k", Material::Key { resolved: Ok("n".to_string()) });
    assert_eq!(s.metrics.start_time, start);
}
