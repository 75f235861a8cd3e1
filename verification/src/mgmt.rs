//! What the management endpoints report and change.

use vstd::prelude::*;
use vstd::string::*;

use crate::config::{default_rate, BackendView, FaultRule, FaultView, KeyError};
use crate::credentials::{CredentialView, CredentialsError, OAuthCredential};
use crate::laws::same_shape;
use crate::proxy::{
    law_seek_finds_the_first, ActionView, AppState, AppView, AuthView, BackendAuth, BackendState,
    Phase, RequestView,
};
use crate::rate::{clamped, law_clamping_by_ranges, Rate, ONE};
use crate::text::{copy_all, texts};

verus! {

/// What is reported of a backend that is ready. Only OAuth backends have a token.
pub struct BackendStatus {
    pub name: String,
    pub base_url: String,
    pub token_expires_at_ms: Option<u64>,
    pub token_expired: Option<bool>,
}

/// The contents of a `BackendStatus`.
pub struct BackendStatusView {
    pub name: Seq<char>,
    pub base_url: Seq<char>,
    pub token_expires_at_ms: Option<u64>,
    pub token_expired: Option<bool>,
}

impl View for BackendStatus {
    type V = BackendStatusView;

    open spec fn view(&self) -> BackendStatusView {
        BackendStatusView {
            name: self.name@,
            base_url: self.base_url@,
            token_expires_at_ms: self.token_expires_at_ms,
            token_expired: self.token_expired,
        }
    }
}

/// The contents of a list of reports.
pub open spec fn status_views(list: Seq<BackendStatus>) -> Seq<BackendStatusView> {
    Seq::new(list.len(), |i: int| list[i]@)
}

/// The report on a configured backend with the given authentication.
pub open spec fn report(backend: BackendView, auth: AuthView, now_ms: u64) -> BackendStatusView {
    BackendStatusView {
        name: backend.name,
        base_url: backend.base_url,
        token_expires_at_ms: match auth {
            AuthView::Oauth { token, .. } => Some(token.expires_at),
            AuthView::ApiKey { .. } => None,
        },
        token_expired: match auth {
            AuthView::Oauth { token, .. } => Some(token.expired(now_ms)),
            AuthView::ApiKey { .. } => None,
        },
    }
}

/// The reports on those of `configured` that are ready, in their order.
pub open spec fn reports(
    configured: Seq<BackendView>,
    ready: Map<Seq<char>, AuthView>,
    now_ms: u64,
) -> Seq<BackendStatusView>
    decreases configured.len(),
{
    if configured.len() == 0 {
        Seq::empty()
    } else {
        let before = reports(configured.drop_last(), ready, now_ms);
        let backend = configured.last();
        if ready.contains_key(backend.name) {
            before.push(report(backend, ready[backend.name], now_ms))
        } else {
            before
        }
    }
}

/// The state of the proxy as it is reported.
pub struct StatusResponse {
    pub backends: Vec<BackendStatus>,
    pub failover_order: Vec<String>,
    pub active_faults: Vec<FaultRule>,
}

/// Whether `rules` are the values of `faults`, each once.
pub open spec fn lists_rules(rules: Seq<FaultRule>, faults: Map<Seq<char>, FaultView>) -> bool {
    exists|names: Seq<Seq<char>>|
        {
            &&& #[trigger] names.no_duplicates()
            &&& names.len() == rules.len()
            &&& forall|name: Seq<char>| names.contains(name) <==> faults.contains_key(name)
            &&& forall|i: int| 0 <= i < rules.len() ==> (#[trigger] rules[i])@ == faults[names[i]]
        }
}

/// The fault rules in force.
fn active_faults(state: &AppState) -> (r: Vec<FaultRule>)
    ensures
        lists_rules(r@, state@.faults),
{
    let entries = state.faults.entries();
    let mut out: Vec<FaultRule> = Vec::new();
    let mut i: usize = 0;
    while i < entries.len()
        invariant
            i <= entries@.len(),
            out@.len() == i,
            forall|j: int| 0 <= j < i ==> (#[trigger] out@[j])@ == entries@[j].1@,
        decreases entries@.len() - i,
    {
        out.push(entries[i].1.copy());
        i = i + 1;
    }
    proof {
        let names = state.faults.names();
        assert forall|j: int| 0 <= j < out@.len() implies (#[trigger] out@[j])@
            == state@.faults[names[j]] by {
            assert(names[j] == entries@[j].0@);
        }
        assert(names.no_duplicates());
    }
    out
}

/// The state of the proxy at `now_ms`: the configured backends that are ready, the failover order
/// and the fault rules in force.
pub fn status(state: &AppState, now_ms: u64) -> (r: StatusResponse)
    ensures
        status_views(r.backends@) == reports(state@.config.backends, state@.backends, now_ms),
        texts(r.failover_order@) == state@.config.order,
        lists_rules(r.active_faults@, state@.faults),
{
    let ghost configured = state@.config.backends;
    let mut backends: Vec<BackendStatus> = Vec::new();
    let mut i: usize = 0;
    assert(status_views(backends@) == reports(configured.take(0), state@.backends, now_ms));
    while i < state.config.backends.len()
        invariant
            i <= state.config.backends@.len(),
            configured == state@.config.backends,
            status_views(backends@) == reports(configured.take(i as int), state@.backends, now_ms),
        decreases state.config.backends@.len() - i,
    {
        let backend = &state.config.backends[i];
        assert(configured.take(i + 1).drop_last() == configured.take(i as int));
        assert(configured.take(i + 1).last() == backend@);
        if let Some(ready) = state.backends.get(backend.name.as_str()) {
            let (token_expires_at_ms, token_expired): (Option<u64>, Option<bool>) =
                match &ready.auth {
                BackendAuth::Oauth { token, .. } => (
                    Some(token.expires_at),
                    Some(token.is_expired_at(now_ms)),
                ),
                BackendAuth::ApiKey { .. } => (None, None),
            };
            let ghost done = status_views(backends@);
            backends.push(
                BackendStatus {
                    name: backend.name.clone(),
                    base_url: backend.base_url.clone(),
                    token_expires_at_ms,
                    token_expired,
                },
            );
            assert(status_views(backends@) == done.push(report(backend@, ready@, now_ms)));
        }
        i = i + 1;
    }
    assert(configured.take(i as int) == configured);
    StatusResponse {
        backends,
        failover_order: copy_all(&state.config.failover.order),
        active_faults: active_faults(state),
    }
}

/// A request to set or clear the fault rule of a backend.
pub struct FaultRequest {
    pub backend: String,
    /// Left out or true to clear the rule, false to set it.
    pub clear: Option<bool>,
    pub status: Option<u16>,
    pub rate: Option<Rate>,
}

/// The answer to a `FaultRequest`.
pub enum FaultReply {
    Cleared { backend: String },
    StatusRequired,
    InForce { rule: FaultRule },
}

/// The contents of a `FaultReply`.
pub enum FaultReplyView {
    Cleared { backend: Seq<char> },
    StatusRequired,
    InForce { rule: FaultView },
}

impl View for FaultReply {
    type V = FaultReplyView;

    open spec fn view(&self) -> FaultReplyView {
        match self {
            FaultReply::Cleared { backend } => FaultReplyView::Cleared { backend: backend@ },
            FaultReply::StatusRequired => FaultReplyView::StatusRequired,
            FaultReply::InForce { rule } => FaultReplyView::InForce { rule: rule@ },
        }
    }
}

impl FaultReply {
    /// The HTTP status of the answer.
    pub fn http_status(&self) -> (r: u16)
        ensures
            r == if self is StatusRequired {
                400u16
            } else {
                200
            },
    {
        match self {
            FaultReply::StatusRequired => 400,
            _ => 200,
        }
    }
}

/// Whether a request is to clear the rule: unless it says that it is not.
pub open spec fn clears(clear: Option<bool>) -> bool {
    clear != Some(false)
}

/// The fault rules after a request, and the answer to it. The rate of a new rule is brought into
/// the range from 0 to 1, and is 1 where the request names none.
pub open spec fn fault_outcome(
    faults: Map<Seq<char>, FaultView>,
    backend: Seq<char>,
    clear: Option<bool>,
    status: Option<u16>,
    rate: Option<Rate>,
) -> (Map<Seq<char>, FaultView>, FaultReplyView) {
    if clears(clear) {
        (faults.remove(backend), FaultReplyView::Cleared { backend })
    } else {
        match status {
            None => (faults, FaultReplyView::StatusRequired),
            Some(status) => {
                let bits = match rate {
                    Some(rate) => clamped(rate.bits),
                    None => ONE,
                };
                let rule = FaultView { backend, status, rate: Rate { bits } };
                (faults.insert(backend, rule), FaultReplyView::InForce { rule })
            },
        }
    }
}

/// Sets or clears the fault rule of a backend.
pub fn set_fault(state: &mut AppState, request: FaultRequest) -> (r: FaultReply)
    ensures
        ({
            let (faults, reply) = fault_outcome(
                old(state)@.faults,
                request.backend@,
                request.clear,
                request.status,
                request.rate,
            );
            final(state)@ == (AppView { faults, ..old(state)@ }) && r@ == reply
        }),
{
    let keep: bool = match request.clear {
        Some(clear) => !clear,
        None => false,
    };
    if !keep {
        state.faults.remove(request.backend.as_str());
        return FaultReply::Cleared { backend: request.backend };
    }
    let status: u16 = match request.status {
        Some(status) => status,
        None => {
            return FaultReply::StatusRequired;
        },
    };
    let asked = match request.rate {
        Some(rate) => rate,
        None => default_rate(),
    };
    let rule = FaultRule { backend: request.backend.clone(), status, rate: asked.clamp() };
    state.faults.insert(request.backend, rule.copy());
    FaultReply::InForce { rule }
}

/// What has to be read before a backend can be reloaded.
pub enum ReloadPlan {
    /// Nothing: there is no such backend.
    NotFound,
    /// The credentials file of an OAuth backend.
    Credentials { file: String },
    /// The configuration on disk, for the key of the backend.
    Key,
}

/// What was read for a reload.
pub enum Material {
    Credential { loaded: Result<OAuthCredential, CredentialsError> },
    Key { resolved: Result<String, KeyError> },
}

/// The answer to a reload.
pub enum ReloadReply {
    NotFound { message: String },
    /// The backend was reloaded; an OAuth token has a new time of expiry.
    Reloaded { backend: String, expires_at_ms: Option<u64> },
    Failed { message: String },
}

/// The contents of a `ReloadReply`.
pub enum ReloadReplyView {
    NotFound { message: Seq<char> },
    Reloaded { backend: Seq<char>, expires_at_ms: Option<u64> },
    Failed { message: Seq<char> },
}

impl View for ReloadReply {
    type V = ReloadReplyView;

    open spec fn view(&self) -> ReloadReplyView {
        match self {
            ReloadReply::NotFound { message } => ReloadReplyView::NotFound { message: message@ },
            ReloadReply::Reloaded { backend, expires_at_ms } => ReloadReplyView::Reloaded {
                backend: backend@,
                expires_at_ms: *expires_at_ms,
            },
            ReloadReply::Failed { message } => ReloadReplyView::Failed { message: message@ },
        }
    }
}

impl ReloadReply {
    /// The HTTP status of the answer.
    pub fn http_status(&self) -> (r: u16)
        ensures
            r == match self {
                ReloadReply::NotFound { .. } => 404u16,
                ReloadReply::Reloaded { .. } => 200,
                ReloadReply::Failed { .. } => 500,
            },
    {
        match self {
            ReloadReply::NotFound { .. } => 404,
            ReloadReply::Reloaded { .. } => 200,
            ReloadReply::Failed { .. } => 500,
        }
    }
}

/// What has to be read before the backend `name` can be reloaded.
pub fn plan_reload(state: &AppState, name: &str) -> (r: ReloadPlan)
    ensures
        if !state@.backends.contains_key(name@) {
            r is NotFound
        } else {
            match state@.backends[name@] {
                AuthView::Oauth { credentials_file, .. } => r matches ReloadPlan::Credentials {
                    file,
                } && file@ == credentials_file,
                AuthView::ApiKey { .. } => r is Key,
            }
        },
{
    match state.backends.get(name) {
        None => ReloadPlan::NotFound,
        Some(ready) => match &ready.auth {
            BackendAuth::Oauth { credentials_file, .. } => ReloadPlan::Credentials {
                file: credentials_file.clone(),
            },
            BackendAuth::ApiKey { .. } => ReloadPlan::Key,
        },
    }
}

/// What a backend authenticates with after a reload, and the answer to it. A failure leaves the
/// backend as it was.
pub open spec fn reload_outcome(auth: AuthView, name: Seq<char>, material: Material) -> (
    AuthView,
    ReloadReplyView,
) {
    match (auth, material) {
        (AuthView::Oauth { credentials_file, .. }, Material::Credential { loaded: Ok(token) }) => (
            AuthView::Oauth { credentials_file, token: token@ },
            ReloadReplyView::Reloaded { backend: name, expires_at_ms: Some(token.expires_at) },
        ),
        (_, Material::Key { resolved: Ok(key) }) => (
            AuthView::ApiKey { key: key@ },
            ReloadReplyView::Reloaded { backend: name, expires_at_ms: None },
        ),
        (_, Material::Credential { loaded: Err(e) }) => (
            auth,
            ReloadReplyView::Failed { message: e@.message() },
        ),
        (_, Material::Key { resolved: Err(e) }) => (
            auth,
            ReloadReplyView::Failed { message: e@.message() },
        ),
        _ => (auth, ReloadReplyView::NotFound { message: not_found(name) }),
    }
}

/// The text of the answer for a backend that there is not.
pub open spec fn not_found(name: Seq<char>) -> Seq<char> {
    "backend '"@ + name + "' not found"@
}

/// Whether `material` is what a backend with this authentication is reloaded from.
pub open spec fn suits(auth: AuthView, material: Material) -> bool {
    match material {
        Material::Credential { .. } => auth is Oauth,
        Material::Key { .. } => auth is ApiKey,
    }
}

/// Reloads the credential or the key of the backend `name` from what `plan_reload` asked for.
pub fn reload(state: &mut AppState, name: &str, material: Material) -> (r: ReloadReply)
    requires
        old(state)@.backends.contains_key(name@) ==> suits(
            old(state)@.backends[name@],
            material,
        ),
    ensures
        if old(state)@.backends.contains_key(name@) {
            let (auth, reply) = reload_outcome(old(state)@.backends[name@], name@, material);
            final(state)@ == (AppView {
                backends: old(state)@.backends.insert(name@, auth),
                ..old(state)@
            }) && r@ == reply
        } else {
            final(state)@ == old(state)@ && r@ == (ReloadReplyView::NotFound {
                message: not_found(name@),
            })
        },
{
    let mut backend = match state.backends.remove(name) {
        Some(backend) => backend,
        None => {
            assert(state@.backends =~= old(state)@.backends);
            return ReloadReply::NotFound {
                message: "backend '".to_owned().concat(name).concat("' not found"),
            };
        },
    };
    let reply = match material {
        Material::Credential { loaded } => match loaded {
            Ok(credential) => {
                let expires_at = credential.expires_at;
                if let BackendAuth::Oauth { token, .. } = &mut backend.auth {
                    *token = credential;
                }
                ReloadReply::Reloaded {
                    backend: name.to_owned(),
                    expires_at_ms: Some(expires_at),
                }
            },
            Err(e) => ReloadReply::Failed { message: e.message() },
        },
        Material::Key { resolved } => match resolved {
            Ok(key) => {
                backend = BackendState { auth: BackendAuth::ApiKey { key } };
                ReloadReply::Reloaded { backend: name.to_owned(), expires_at_ms: None }
            },
            Err(e) => ReloadReply::Failed { message: e.message() },
        },
    };
    state.backends.insert(name.to_owned(), backend);
    assert(state@.backends =~= old(state)@.backends.insert(name@, backend@));
    reply
}

/// A rule that was set is in force until it is cleared or set again, and clearing takes back what
/// setting did; the rules of other backends stay as they are throughout.
pub proof fn law_set_and_clear(
    faults: Map<Seq<char>, FaultView>,
    backend: Seq<char>,
    status: u16,
    rate: Option<Rate>,
    clear: Option<bool>,
    other: Seq<char>,
)
    requires
        clears(clear),
    ensures
        ({
            let set = fault_outcome(faults, backend, Some(false), Some(status), rate).0;
            let cleared = fault_outcome(set, backend, clear, None, None).0;
            &&& set.contains_key(backend) && set[backend].backend == backend && set[backend].status
                == status
            &&& !cleared.contains_key(backend)
            &&& cleared == faults.remove(backend)
            &&& other != backend ==> (set.contains_key(other) <==> faults.contains_key(other))
                && set[other] == faults[other]
        }),
{
    let set = fault_outcome(faults, backend, Some(false), Some(status), rate).0;
    assert(set.remove(backend) =~= faults.remove(backend));
}

/// Managing the proxy never takes a backend from a request that is under way.
pub proof fn law_management_keeps_the_shape(
    app: AppView,
    faults: Map<Seq<char>, FaultView>,
    name: Seq<char>,
    material: Material,
)
    requires
        app.backends.contains_key(name),
        suits(app.backends[name], material),
    ensures
        same_shape(app, AppView { faults, ..app }),
        same_shape(
            app,
            AppView {
                backends: app.backends.insert(
                    name,
                    reload_outcome(app.backends[name], name, material).0,
                ),
                ..app
            },
        ),
{
    let auth = reload_outcome(app.backends[name], name, material).0;
    assert(app.backends.insert(name, auth).dom() =~= app.backends.dom());
}

/// A reload that fails changes nothing.
pub proof fn law_failed_reload_changes_nothing(
    app: AppView,
    name: Seq<char>,
    material: Material,
)
    requires
        app.backends.contains_key(name),
        reload_outcome(app.backends[name], name, material).1 is Failed,
    ensures
        app.backends.insert(name, reload_outcome(app.backends[name], name, material).0)
            == app.backends,
{
    assert(app.backends.insert(name, app.backends[name]) =~= app.backends);
}

/// A token or key that was reloaded is the one that requests to the backend carry from then on.
pub proof fn law_reloaded_secrets_are_used(
    app: AppView,
    name: Seq<char>,
    material: Material,
    request: RequestView,
    i: int,
)
    requires
        app.backends.contains_key(name),
        suits(app.backends[name], material),
        reload_outcome(app.backends[name], name, material).1 is Reloaded,
        app.eligible(request.path(), i),
        app.config.order[i] == name,
    ensures
        ({
            let auth = reload_outcome(app.backends[name], name, material).0;
            let after = AppView { backends: app.backends.insert(name, auth), ..app };
            &&& after.eligible(request.path(), i)
            &&& after.send(request, i)->authorization == "Bearer "@ + match material {
                Material::Credential { loaded } => loaded->Ok_0.access_token@,
                Material::Key { resolved } => resolved->Ok_0@,
            }
        }),
{
}

/// A rule that was set is looked at before the next request to its backend is sent, with the status
/// that was asked for and the rate of the rule.
pub proof fn law_set_rules_take_effect(
    app: AppView,
    backend: Seq<char>,
    status: u16,
    rate: Option<Rate>,
    request: RequestView,
    from: int,
    now_ms: u64,
)
    requires
        app.config.order.len() <= usize::MAX,
        0 <= from,
        app.next_eligible(request.path(), from) matches Some(i) && app.config.order[i] == backend,
    ensures
        ({
            let faults = fault_outcome(app.faults, backend, Some(false), Some(status), rate).0;
            let next = (AppView { faults, ..app }).seek(request, from, now_ms);
            &&& next.action == ActionView::Draw
            &&& next.dispatch.at == app.next_eligible(request.path(), from)->0
            &&& next.dispatch.phase == (Phase::Drawing { status, rate: faults[backend].rate })
        }),
{
    let faults = fault_outcome(app.faults, backend, Some(false), Some(status), rate).0;
    lemma_rules_do_not_matter(app, faults, request.path(), from);
    law_seek_finds_the_first(app, request.path(), from);
}

/// Which backend comes next does not depend on the fault rules.
proof fn lemma_rules_do_not_matter(
    app: AppView,
    faults: Map<Seq<char>, FaultView>,
    path: Seq<char>,
    from: int,
)
    ensures
        (AppView { faults, ..app }).next_eligible(path, from) == app.next_eligible(path, from),
    decreases app.config.order.len() - from,
{
    let other = AppView { faults, ..app };
    assert(other.eligible(path, from) == app.eligible(path, from));
    if from < app.config.order.len() && !app.eligible(path, from) {
        lemma_rules_do_not_matter(app, faults, path, from + 1);
    }
}

/// Reports are made backend by backend, in the order of the configuration, and only of those that are
/// ready: the report of two lists is that of the first followed by that of the second.
pub proof fn law_reports_follow_the_configuration(
    first: Seq<BackendView>,
    second: Seq<BackendView>,
    ready: Map<Seq<char>, AuthView>,
    now_ms: u64,
)
    ensures
        reports(first + second, ready, now_ms) == reports(first, ready, now_ms) + reports(
            second,
            ready,
            now_ms,
        ),
    decreases second.len(),
{
    if second.len() == 0 {
        assert(first + second == first);
        assert(reports(first, ready, now_ms) + reports(second, ready, now_ms) == reports(
            first,
            ready,
            now_ms,
        ));
    } else {
        law_reports_follow_the_configuration(first, second.drop_last(), ready, now_ms);
        assert((first + second).drop_last() == first + second.drop_last());
        assert((first + second).last() == second.last());
        assert(reports(first + second, ready, now_ms) =~= reports(first, ready, now_ms) + reports(
            second,
            ready,
            now_ms,
        ));
    }
}

/// What is reported of one backend: its name and address, and the time of expiry of its token with
/// whether that time has come; nothing about a token with an API key, and nothing at all of a backend
/// that is not ready.
pub proof fn law_what_is_reported_of_a_backend(
    b: BackendView,
    ready: Map<Seq<char>, AuthView>,
    now_ms: u64,
)
    ensures
        reports(seq![b], ready, now_ms) == if ready.contains_key(b.name) {
            match ready[b.name] {
                AuthView::Oauth { token, .. } => seq![
                    BackendStatusView {
                        name: b.name,
                        base_url: b.base_url,
                        token_expires_at_ms: Some(token.expires_at),
                        token_expired: Some(token.expires_at <= now_ms),
                    },
                ],
                AuthView::ApiKey { .. } => seq![
                    BackendStatusView {
                        name: b.name,
                        base_url: b.base_url,
                        token_expires_at_ms: None,
                        token_expired: None,
                    },
                ],
            }
        } else {
            Seq::empty()
        },
{
    reveal_with_fuel(reports, 2);
    assert(seq![b].drop_last() == Seq::<BackendView>::empty());
    assert(seq![b].last() == b);
    assert(reports(seq![b], ready, now_ms) =~= if ready.contains_key(b.name) {
        seq![report(b, ready[b.name], now_ms)]
    } else {
        Seq::empty()
    });
}

/// What a fault request does. Where `clear` is left out or true the rule of the backend is taken
/// away; otherwise a request without a status changes nothing, and one with a status sets a rule with
/// it, whose rate is the one asked for, brought into the range from 0 to 1, or 1 where none is. The
/// rules of other backends stay.
pub proof fn law_what_a_fault_request_does(
    faults: Map<Seq<char>, FaultView>,
    backend: Seq<char>,
    status: Option<u16>,
    rate: Option<Rate>,
)
    ensures
        fault_outcome(faults, backend, None, status, rate) == (
            faults.remove(backend),
            FaultReplyView::Cleared { backend },
        ),
        fault_outcome(faults, backend, Some(true), status, rate) == (
            faults.remove(backend),
            FaultReplyView::Cleared { backend },
        ),
        status is None ==> fault_outcome(faults, backend, Some(false), status, rate) == (
            faults,
            FaultReplyView::StatusRequired,
        ),
        status matches Some(code) ==> {
            let bits = match rate {
                None => 0x3ff0_0000_0000_0000,
                Some(asked) => if 0x3ff0_0000_0000_0000 < asked.bits <= 0x7ff0_0000_0000_0000 {
                    0x3ff0_0000_0000_0000
                } else if 0x8000_0000_0000_0000 < asked.bits <= 0xfff0_0000_0000_0000 {
                    0
                } else {
                    asked.bits
                },
            };
            let rule = FaultView { backend, status: code, rate: Rate { bits } };
            fault_outcome(faults, backend, Some(false), status, rate) == (
                faults.insert(backend, rule),
                FaultReplyView::InForce { rule },
            )
        },
{
    if let Some(asked) = rate {
        law_clamping_by_ranges(asked.bits);
    }
}

/// What a reload does: a credential or a key that was read takes the place of the old one, and a
/// failure changes nothing and says why.
pub proof fn law_what_a_reload_does(
    name: Seq<char>,
    file: Seq<char>,
    old_token: CredentialView,
    old_key: Seq<char>,
    token: OAuthCredential,
    key: String,
    token_error: CredentialsError,
    key_error: KeyError,
)
    ensures
        ({
            let oauth = AuthView::Oauth { credentials_file: file, token: old_token };
            let keyed = AuthView::ApiKey { key: old_key };
            &&& reload_outcome(oauth, name, Material::Credential { loaded: Ok(token) }) == (
                AuthView::Oauth { credentials_file: file, token: token@ },
                ReloadReplyView::Reloaded { backend: name, expires_at_ms: Some(token.expires_at) },
            )
            &&& reload_outcome(oauth, name, Material::Credential { loaded: Err(token_error) }) == (
                oauth,
                ReloadReplyView::Failed { message: token_error@.message() },
            )
            &&& reload_outcome(keyed, name, Material::Key { resolved: Ok(key) }) == (
                AuthView::ApiKey { key: key@ },
                ReloadReplyView::Reloaded { backend: name, expires_at_ms: None },
            )
            &&& reload_outcome(keyed, name, Material::Key { resolved: Err(key_error) }) == (
                keyed,
                ReloadReplyView::Failed { message: key_error@.message() },
            )
            &&& not_found(name) == "backend '"@ + name + "' not found"@
        }),
{
}

/// A backend is reloaded from what suits it: a credential with OAuth, and a key with an API key.
pub proof fn law_what_suits_a_backend(auth: AuthView, material: Material)
    ensures
        suits(auth, material) <==> (auth is Oauth && material is Credential) || (auth is ApiKey
            && material is Key),
{
}

/// The contents of reports and answers are their fields.
pub proof fn law_contents_of_answers(
    status: BackendStatus,
    backend: String,
    rule: FaultRule,
    message: String,
    expires_at_ms: Option<u64>,
)
    ensures
        status@.name == status.name@,
        status@.base_url == status.base_url@,
        status@.token_expires_at_ms == status.token_expires_at_ms,
        status@.token_expired == status.token_expired,
        (FaultReply::Cleared { backend })@ == (FaultReplyView::Cleared { backend: backend@ }),
        FaultReply::StatusRequired@ == FaultReplyView::StatusRequired,
        (FaultReply::InForce { rule })@ == (FaultReplyView::InForce { rule: rule@ }),
        (ReloadReply::NotFound { message })@ == (ReloadReplyView::NotFound { message: message@ }),
        (ReloadReply::Failed { message })@ == (ReloadReplyView::Failed { message: message@ }),
        (ReloadReply::Reloaded { backend, expires_at_ms })@ == (ReloadReplyView::Reloaded {
            backend: backend@,
            expires_at_ms,
        }),
{
}

/// Whether `rule` is in force for some backend.
pub open spec fn is_in_force(rule: FaultView, faults: Map<Seq<char>, FaultView>) -> bool {
    exists|name: Seq<char>| #[trigger] faults.contains_key(name) && faults[name] == rule
}

/// The rules that are listed are those in force, each once: every one of them is listed, nothing else
/// is, and there are as many.
pub proof fn law_all_rules_are_listed(rules: Seq<FaultRule>, faults: Map<Seq<char>, FaultView>)
    requires
        lists_rules(rules, faults),
    ensures
        forall|name: Seq<char>| #[trigger]
            faults.contains_key(name) ==> exists|i: int|
                0 <= i < rules.len() && (#[trigger] rules[i])@ == faults[name],
        forall|i: int| 0 <= i < rules.len() ==> is_in_force((#[trigger] rules[i])@, faults),
        faults.dom().finite(),
        rules.len() == faults.dom().len(),
{
    let names = choose|names: Seq<Seq<char>>|
        {
            &&& #[trigger] names.no_duplicates()
            &&& names.len() == rules.len()
            &&& forall|name: Seq<char>| names.contains(name) <==> faults.contains_key(name)
            &&& forall|i: int| 0 <= i < rules.len() ==> (#[trigger] rules[i])@ == faults[names[i]]
        };
    assert forall|name: Seq<char>| #[trigger] faults.contains_key(name) implies exists|i: int|
        0 <= i < rules.len() && (#[trigger] rules[i])@ == faults[name] by {
        assert(names.contains(name));
        let i = choose|i: int| 0 <= i < names.len() && names[i] == name;
        assert(rules[i]@ == faults[name]);
    }
    assert forall|i: int| 0 <= i < rules.len() implies is_in_force(
        (#[trigger] rules[i])@,
        faults,
    ) by {
        assert(names.contains(names[i]));
        assert(faults.contains_key(names[i]));
    }
    names.unique_seq_to_set();
    assert(names.to_set() =~= faults.dom());
}

/// The contents of a list of reports are those of the reports, one by one.
pub proof fn law_contents_of_reports(list: Seq<BackendStatus>)
    ensures
        status_views(list).len() == list.len(),
        forall|i: int| 0 <= i < list.len() ==> #[trigger] status_views(list)[i] == list[i]@,
{
}

} // verus!
