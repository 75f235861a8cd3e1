//! How a request finds a backend.

use std::time::Instant;

use vstd::prelude::*;
use vstd::string::*;

use crate::body::{rewrite_model, rewritten};
use crate::config::{
    find_backend, law_last_rule_counts, rules_by_backend, AuthConfig, Backend, BackendView, Config, ConfigView, FaultRule,
    FaultView,
};
use crate::credentials::{CredentialView, CredentialsError, OAuthCredential};
use crate::metrics::{Metrics, MetricsView};
use crate::rate::{less, Rate};
use crate::table::Table;
use crate::text::{before, cut_at, texts, trim_end, trimmed_end};

verus! {

/// The flag that an upstream wants to see beside an OAuth token. Without it even a valid token is
/// rejected.
pub const OAUTH_BETA: &'static str = "oauth-2025-04-20";

/// The status of an answer when no backend is left.
pub const BAD_GATEWAY: u16 = 502;

/// The status of an answer in place of one that is none.
pub const INTERNAL_SERVER_ERROR: u16 = 500;

/// The status that makes an OAuth token be loaded again.
pub const UNAUTHORIZED: u16 = 401;

/// The longest request body that is read, in bytes.
pub const MAX_BODY: usize = 16_777_216;

/// What a backend authenticates requests with.
pub enum BackendAuth {
    Oauth { credentials_file: String, token: OAuthCredential },
    ApiKey { key: String },
}

/// The contents of a `BackendAuth`.
pub enum AuthView {
    Oauth { credentials_file: Seq<char>, token: CredentialView },
    ApiKey { key: Seq<char> },
}

/// A backend that is ready for requests.
pub struct BackendState {
    pub auth: BackendAuth,
}

impl View for BackendState {
    type V = AuthView;

    open spec fn view(&self) -> AuthView {
        match self.auth {
            BackendAuth::Oauth { credentials_file, token } => AuthView::Oauth {
                credentials_file: credentials_file@,
                token: token@,
            },
            BackendAuth::ApiKey { key } => AuthView::ApiKey { key: key@ },
        }
    }
}

impl AuthView {
    /// After the credentials file was read again: a credential takes the place of the token, and a
    /// failure leaves it.
    pub open spec fn reloaded(self, loaded: Option<CredentialView>) -> AuthView {
        match (self, loaded) {
            (AuthView::Oauth { credentials_file, .. }, Some(token)) => AuthView::Oauth {
                credentials_file,
                token,
            },
            _ => self,
        }
    }

    /// What requests are authorized with: the access token or the key.
    pub open spec fn secret(self) -> Seq<char> {
        match self {
            AuthView::Oauth { token, .. } => token.access_token,
            AuthView::ApiKey { key } => key,
        }
    }
}

/// The credential that was loaded.
pub open spec fn loaded_view(loaded: Result<OAuthCredential, CredentialsError>) -> Option<
    CredentialView,
> {
    match loaded {
        Ok(credential) => Some(credential@),
        Err(_) => None,
    }
}

/// The access token of an OAuth backend, or nothing where it has expired and has to be loaded again.
pub fn current_oauth_token(backend: &BackendState, now_ms: u64) -> (r: Option<String>)
    requires
        backend@ is Oauth,
    ensures
        r is None <==> backend@->token.expired(now_ms),
        r matches Some(token) ==> token@ == backend@.secret(),
        match backend.auth {
            BackendAuth::Oauth { token, .. } => match r {
                Some(text) => now_ms < token.expires_at && text@ == token.access_token@,
                None => token.expires_at <= now_ms,
            },
            BackendAuth::ApiKey { .. } => false,
        },
{
    match &backend.auth {
        BackendAuth::Oauth { token, .. } => if token.is_expired_at(now_ms) {
            None
        } else {
            Some(token.access_token.clone())
        },
        BackendAuth::ApiKey { .. } => None,
    }
}

/// Stores the credential that was loaded for an OAuth backend, and returns the access token that is
/// now in force. A failure leaves the token that there was.
pub fn reload_token(
    backend: &mut BackendState,
    loaded: Result<OAuthCredential, CredentialsError>,
) -> (r: String)
    requires
        old(backend)@ is Oauth,
    ensures
        final(backend)@ == old(backend)@.reloaded(loaded_view(loaded)),
        r@ == final(backend)@.secret(),
        match (old(backend)@, loaded) {
            (AuthView::Oauth { credentials_file, .. }, Ok(credential)) => final(backend)@ == (
            AuthView::Oauth { credentials_file, token: credential@ }) && r@
                == credential.access_token@,
            (AuthView::Oauth { token, .. }, Err(_)) => final(backend)@ == old(backend)@ && r@
                == token.access_token,
            _ => false,
        },
{
    match &mut backend.auth {
        BackendAuth::Oauth { token, .. } => {
            if let Ok(credential) = loaded {
                *token = credential;
            }
            token.access_token.clone()
        },
        BackendAuth::ApiKey { key } => key.clone(),
    }
}

/// What has to be done before a configured backend is ready.
pub enum Startup {
    /// Load the credentials file of an OAuth backend.
    LoadCredentials { file: String },
    /// Nothing: the backend is ready with its key.
    Ready { backend: BackendState },
}

/// Why a configured backend cannot be made ready.
#[derive(Debug)]
pub enum StartupError {
    /// An OAuth backend without a credentials file.
    NoCredentialsFile { backend: String },
    /// A backend with an API key, but without the key.
    NoKey { backend: String },
}

impl StartupError {
    /// The text of the error.
    pub open spec fn text(self) -> Seq<char> {
        match self {
            StartupError::NoCredentialsFile { backend } => "backend '"@ + backend@
                + "' has no credentials_file field"@,
            StartupError::NoKey { backend } => "backend '"@ + backend@ + "' has no key field"@,
        }
    }

    /// The text of the error.
    pub fn message(&self) -> (r: String)
        ensures
            r@ == self.text(),
    {
        match self {
            StartupError::NoCredentialsFile { backend } => {
                "backend '".to_owned().concat(backend.as_str()).concat(
                    "' has no credentials_file field",
                )
            },
            StartupError::NoKey { backend } => {
                "backend '".to_owned().concat(backend.as_str()).concat("' has no key field")
            },
        }
    }
}

/// What has to be done before `backend` is ready: an OAuth backend needs its credentials file, and
/// one with an API key needs the key.
pub fn startup(backend: &Backend) -> (r: Result<Startup, StartupError>)
    ensures
        match backend@.auth {
            AuthConfig::Oauth => match backend@.credentials_file {
                Some(path) => r matches Ok(Startup::LoadCredentials { file }) && file@ == path,
                None => r matches Err(StartupError::NoCredentialsFile { backend: name }) && name@
                    == backend@.name,
            },
            AuthConfig::ApiKey => match backend@.key {
                Some(key) => r matches Ok(Startup::Ready { backend: ready }) && ready@ == (
                AuthView::ApiKey { key }),
                None => r matches Err(StartupError::NoKey { backend: name }) && name@
                    == backend@.name,
            },
        },
{
    match backend.auth {
        AuthConfig::Oauth => match &backend.credentials_file {
            Some(file) => Ok(Startup::LoadCredentials { file: file.clone() }),
            None => Err(StartupError::NoCredentialsFile { backend: backend.name.clone() }),
        },
        AuthConfig::ApiKey => match &backend.key {
            Some(key) => Ok(
                Startup::Ready {
                    backend: BackendState { auth: BackendAuth::ApiKey { key: key.clone() } },
                },
            ),
            None => Err(StartupError::NoKey { backend: backend.name.clone() }),
        },
    }
}

/// What the proxy works on.
pub struct AppState {
    pub config: Config,
    /// The backends that are ready, by name.
    pub backends: Table<BackendState>,
    /// The fault rules in force, by the name of the backend.
    pub faults: Table<FaultRule>,
    pub metrics: Metrics,
}

/// The contents of an `AppState`.
pub struct AppView {
    pub config: ConfigView,
    pub backends: Map<Seq<char>, AuthView>,
    pub faults: Map<Seq<char>, FaultView>,
    pub metrics: MetricsView,
}

impl View for AppState {
    type V = AppView;

    open spec fn view(&self) -> AppView {
        AppView {
            config: self.config@,
            backends: self.backends@,
            faults: self.faults@,
            metrics: self.metrics@,
        }
    }
}

/// A request of a client.
pub struct Request {
    pub path_and_query: String,
    pub body: Vec<u8>,
}

/// The contents of a `Request`.
pub struct RequestView {
    /// The path and the query.
    pub target: Seq<char>,
    pub body: Seq<u8>,
}

impl View for Request {
    type V = RequestView;

    open spec fn view(&self) -> RequestView {
        RequestView { target: self.path_and_query@, body: self.body@ }
    }
}

impl RequestView {
    /// The path: what stands before the query.
    pub open spec fn path(self) -> Seq<char> {
        before(self.target, '?')
    }
}

/// The path that stands in for one that is missing.
pub open spec fn root_path() -> Seq<char> {
    "/"@
}

impl Request {
    /// The request for a path and query, or for the root where there is none.
    pub fn new(path_and_query: Option<&str>, body: Vec<u8>) -> (r: Request)
        ensures
            r@.target == match path_and_query {
                Some(path) => path@,
                None => root_path(),
            },
            path_and_query is None ==> r.path_and_query@ == "/"@,
            path_and_query matches Some(path) ==> r.path_and_query@ == path@,
            r.body@ == body@,
            r@.body == body@,
    {
        let path_and_query = match path_and_query {
            Some(path) => path.to_owned(),
            None => "/".to_owned(),
        };
        Request { path_and_query, body }
    }

    /// The path: what stands before the query.
    fn path(&self) -> (r: String)
        ensures
            r@ == self@.path(),
    {
        cut_at(self.path_and_query.as_str(), '?')
    }
}

/// What a request is waiting for.
#[derive(Debug, Clone, Copy, PartialEq, Eq, Structural)]
pub enum Phase {
    /// A random number that decides whether the backend's fault rule fires.
    Drawing { status: u16, rate: Rate },
    /// The credentials file, as the token has expired.
    Refreshing,
    /// The reply to the first try with an OAuth token.
    AwaitingFirst,
    /// The credentials file, as the token was rejected.
    Reloading,
    /// The reply to the second try with an OAuth token.
    AwaitingRetry,
    /// The reply to the try with an API key.
    AwaitingKeyed,
    /// Nothing: the client has its answer.
    Finished,
}

/// How far a request has come: the backend that it is at, as a position in the failover order, and
/// what it waits for.
#[derive(Debug, Clone, Copy, PartialEq, Eq, Structural)]
pub struct Dispatch {
    pub at: usize,
    pub phase: Phase,
}

/// What is to be done next for a request.
pub enum Action {
    /// Draw a random number from 0, inclusive, to 1, exclusive.
    Draw,
    /// Load the credentials file.
    LoadCredentials { file: String },
    /// Send the request to `url` with this `Authorization`, and `OAUTH_BETA` if `oauth_beta`.
    Send { url: String, authorization: String, oauth_beta: bool, body: Vec<u8> },
    /// Pass the reply on to the client.
    Relay,
    /// Answer the client with a status and nothing else.
    Answer { status: u16 },
}

/// The contents of an `Action`.
pub enum ActionView {
    Draw,
    LoadCredentials { file: Seq<char> },
    Send { url: Seq<char>, authorization: Seq<char>, oauth_beta: bool, body: Seq<u8> },
    Relay,
    Answer { status: u16 },
}

impl View for Action {
    type V = ActionView;

    open spec fn view(&self) -> ActionView {
        match self {
            Action::Draw => ActionView::Draw,
            Action::LoadCredentials { file } => ActionView::LoadCredentials { file: file@ },
            Action::Send { url, authorization, oauth_beta, body } => ActionView::Send {
                url: url@,
                authorization: authorization@,
                oauth_beta: *oauth_beta,
                body: body@,
            },
            Action::Relay => ActionView::Relay,
            Action::Answer { status } => ActionView::Answer { status: *status },
        }
    }
}

/// What came of an action.
pub enum Event {
    /// The bit pattern of the random number.
    Drawn { draw: u64 },
    /// The credential in the file, or why there is none.
    Loaded { loaded: Result<OAuthCredential, CredentialsError> },
    /// The status of the reply, or nothing where no reply came.
    Replied { status: Option<u16> },
}

/// The contents of an `Event`.
pub enum EventView {
    Drawn { draw: u64 },
    Loaded { loaded: Option<CredentialView> },
    Replied { status: Option<u16> },
}

impl View for Event {
    type V = EventView;

    open spec fn view(&self) -> EventView {
        match self {
            Event::Drawn { draw } => EventView::Drawn { draw: *draw },
            Event::Loaded { loaded } => EventView::Loaded { loaded: loaded_view(*loaded) },
            Event::Replied { status } => EventView::Replied { status: *status },
        }
    }
}

/// What a step leads to.
pub struct StepView {
    pub app: AppView,
    pub dispatch: Dispatch,
    pub action: ActionView,
}

impl AppView {
    /// The configured backend at a position in the failover order.
    pub open spec fn backend_at(self, i: int) -> Option<BackendView> {
        find_backend(self.config.backends, self.config.order[i])
    }

    /// Whether the backend at a position in the failover order can be tried for `path`: it is
    /// configured, ready, and its allowlist admits the path.
    pub open spec fn eligible(self, path: Seq<char>, i: int) -> bool {
        &&& 0 <= i < self.config.order.len()
        &&& self.backend_at(i) is Some
        &&& self.backends.contains_key(self.config.order[i])
        &&& self.backend_at(i)->0.serves(path)
    }

    /// The first position, from `from` on, whose backend can be tried.
    pub open spec fn next_eligible(self, path: Seq<char>, from: int) -> Option<int>
        decreases self.config.order.len() - from,
    {
        if from >= self.config.order.len() {
            None
        } else if self.eligible(path, from) {
            Some(from)
        } else {
            self.next_eligible(path, from + 1)
        }
    }

    /// What the backend at a position authenticates with.
    pub open spec fn auth_at(self, i: int) -> AuthView {
        self.backends[self.config.order[i]]
    }

    /// Whether `status` makes the proxy try the next backend.
    pub open spec fn triggers_failover(self, status: u16) -> bool {
        self.config.triggers.contains(status)
    }

    /// The request for the backend at a position.
    pub open spec fn send(self, request: RequestView, i: int) -> ActionView {
        let backend = self.backend_at(i)->0;
        ActionView::Send {
            url: trimmed_end(backend.base_url, '/') + request.target,
            authorization: "Bearer "@ + self.auth_at(i).secret(),
            oauth_beta: self.auth_at(i) is Oauth,
            body: rewritten(request.body, backend.model_map),
        }
    }

    /// Tries the backend at a position: at once, unless its token has expired.
    pub open spec fn attempt(self, request: RequestView, i: int, now_ms: u64) -> StepView {
        let (phase, action) = match self.auth_at(i) {
            AuthView::ApiKey { .. } => (Phase::AwaitingKeyed, self.send(request, i)),
            AuthView::Oauth { credentials_file, token } => if token.expired(now_ms) {
                (Phase::Refreshing, ActionView::LoadCredentials { file: credentials_file })
            } else {
                (Phase::AwaitingFirst, self.send(request, i))
            },
        };
        StepView { app: self, dispatch: Dispatch { at: i as usize, phase }, action }
    }

    /// Answers the client with a status.
    pub open spec fn answer(self, i: int, status: u16) -> StepView {
        StepView {
            app: self,
            dispatch: Dispatch { at: i as usize, phase: Phase::Finished },
            action: ActionView::Answer { status },
        }
    }

    /// Goes to the first backend, from a position on, that can be tried. A fault rule is looked at
    /// before the backend is.
    pub open spec fn seek(self, request: RequestView, from: int, now_ms: u64) -> StepView {
        match self.next_eligible(request.path(), from) {
            None => self.answer(self.config.order.len() as int, BAD_GATEWAY),
            Some(i) => {
                let name = self.config.order[i];
                let counted = AppView { metrics: self.metrics.tried(name), ..self };
                if self.faults.contains_key(name) {
                    let rule = self.faults[name];
                    StepView {
                        app: counted,
                        dispatch: Dispatch {
                            at: i as usize,
                            phase: Phase::Drawing { status: rule.status, rate: rule.rate },
                        },
                        action: ActionView::Draw,
                    }
                } else {
                    counted.attempt(request, i, now_ms)
                }
            },
        }
    }

    /// A fault rule fires or not. Where it fires its status stands for the backend's reply.
    pub open spec fn drawn(
        self,
        request: RequestView,
        i: int,
        status: u16,
        rate: Rate,
        draw: u64,
        now_ms: u64,
    ) -> StepView {
        if less(draw, rate.bits) {
            let noted = self.metrics.faulted().answered(self.config.order[i], status);
            if self.triggers_failover(status) {
                AppView { metrics: noted.failed_over(), ..self }.seek(request, i + 1, now_ms)
            } else {
                AppView { metrics: noted, ..self }.answer(i, answerable(status))
            }
        } else {
            self.attempt(request, i, now_ms)
        }
    }

    /// A credentials file was read, and the request is sent with the token that is now in force.
    pub open spec fn loaded(
        self,
        request: RequestView,
        i: int,
        loaded: Option<CredentialView>,
        phase: Phase,
    ) -> StepView {
        let app = AppView {
            backends: self.backends.insert(
                self.config.order[i],
                self.auth_at(i).reloaded(loaded),
            ),
            ..self
        };
        StepView {
            app,
            dispatch: Dispatch { at: i as usize, phase },
            action: app.send(request, i),
        }
    }

    /// A reply came that stands: it is passed on, unless its status makes the proxy try the next
    /// backend.
    pub open spec fn settle(self, request: RequestView, i: int, status: u16, now_ms: u64) -> StepView {
        let noted = self.metrics.answered(self.config.order[i], status);
        if self.triggers_failover(status) {
            AppView { metrics: noted.failed_over(), ..self }.seek(request, i + 1, now_ms)
        } else {
            StepView {
                app: AppView { metrics: noted, ..self },
                dispatch: Dispatch { at: i as usize, phase: Phase::Finished },
                action: ActionView::Relay,
            }
        }
    }

    /// What follows on an event. A token that is rejected is loaded again once; a backend that
    /// rejects it again, or does not reply, is passed over.
    pub open spec fn step(
        self,
        request: RequestView,
        dispatch: Dispatch,
        event: EventView,
        now_ms: u64,
    ) -> StepView {
        let i = dispatch.at as int;
        match (dispatch.phase, event) {
            (Phase::Drawing { status, rate }, EventView::Drawn { draw }) => self.drawn(
                request,
                i,
                status,
                rate,
                draw,
                now_ms,
            ),
            (Phase::Refreshing, EventView::Loaded { loaded }) => self.loaded(
                request,
                i,
                loaded,
                Phase::AwaitingFirst,
            ),
            (Phase::Reloading, EventView::Loaded { loaded }) => self.loaded(
                request,
                i,
                loaded,
                Phase::AwaitingRetry,
            ),
            (_, EventView::Replied { status: Some(status) }) => if status == UNAUTHORIZED
                && dispatch.phase == Phase::AwaitingFirst {
                StepView {
                    app: self,
                    dispatch: Dispatch { at: dispatch.at, phase: Phase::Reloading },
                    action: ActionView::LoadCredentials {
                        file: self.auth_at(i)->credentials_file,
                    },
                }
            } else if status == UNAUTHORIZED && dispatch.phase == Phase::AwaitingRetry {
                self.seek(request, i + 1, now_ms)
            } else {
                self.settle(request, i, status, now_ms)
            },
            _ => self.seek(request, i + 1, now_ms),
        }
    }

    /// Whether `dispatch` stands at a backend that can be tried and that has what it waits for.
    pub open spec fn fits(self, request: RequestView, dispatch: Dispatch) -> bool {
        let i = dispatch.at as int;
        match dispatch.phase {
            Phase::Finished => true,
            Phase::Drawing { .. } => self.eligible(request.path(), i),
            Phase::AwaitingKeyed => self.eligible(request.path(), i) && self.auth_at(i) is ApiKey,
            _ => self.eligible(request.path(), i) && self.auth_at(i) is Oauth,
        }
    }
}

/// Whether `event` is what `phase` waits for.
pub open spec fn expects(phase: Phase, event: EventView) -> bool {
    match phase {
        Phase::Drawing { .. } => event is Drawn,
        Phase::Refreshing => event is Loaded,
        Phase::Reloading => event is Loaded,
        Phase::AwaitingFirst => event is Replied,
        Phase::AwaitingRetry => event is Replied,
        Phase::AwaitingKeyed => event is Replied,
        Phase::Finished => false,
    }
}

/// A status as it can be answered.
pub open spec fn answerable(status: u16) -> u16 {
    if 100 <= status <= 999 {
        status
    } else {
        INTERNAL_SERVER_ERROR
    }
}

/// `StatusCode::from_u16`, of the `http` crate: the numbers from 100 to 999 are statuses.
#[verifier::external_body]
fn valid_status(status: u16) -> (r: Option<u16>)
    ensures
        r == if 100 <= status <= 999 {
            Some(status)
        } else {
            None
        },
{
    axum::http::StatusCode::from_u16(status).ok().map(|code| code.as_u16())
}

/// A status as it can be answered: itself, or 500 where it is none.
pub fn answer_status(status: u16) -> (r: u16)
    ensures
        r == answerable(status),
        100 <= status <= 999 ==> r == status,
        status < 100 || 999 < status ==> r == 500,
{
    match valid_status(status) {
        Some(s) => s,
        None => INTERNAL_SERVER_ERROR,
    }
}

/// Whether `status` is among `statuses`.
fn has_status(statuses: &Vec<u16>, status: u16) -> (r: bool)
    ensures
        r == statuses@.contains(status),
{
    let mut i: usize = 0;
    while i < statuses.len()
        invariant
            i <= statuses@.len(),
            forall|j: int| 0 <= j < i ==> statuses@[j] != status,
        decreases statuses@.len() - i,
    {
        if statuses[i] == status {
            return true;
        }
        i = i + 1;
    }
    false
}

impl AppState {
    /// A proxy without backends that are ready, with the fault rules of its configuration and
    /// counters at 0.
    pub fn new(config: Config) -> (r: AppState)
        ensures
            r@ == AppView::initial(config@, r.metrics.start_time),
    {
        let faults = config.fault_injection.as_map();
        let mut names: Vec<String> = Vec::new();
        let mut i: usize = 0;
        while i < config.backends.len()
            invariant
                i <= config.backends@.len(),
                texts(names@) == backend_names(config@.backends).take(i as int),
            decreases config.backends@.len() - i,
        {
            let ghost done = texts(names@);
            names.push(config.backends[i].name.clone());
            assert(texts(names@) == done.push(config.backends@[i as int]@.name));
            i = i + 1;
        }
        assert(texts(names@) == backend_names(config@.backends));
        let metrics = Metrics::new(names.as_slice());
        AppState { config, backends: Table::new(), faults, metrics }
    }

    /// Makes a backend ready, in place of one of the same name.
    pub fn add_backend(&mut self, name: String, backend: BackendState)
        ensures
            final(self)@ == (AppView {
                backends: old(self)@.backends.insert(name@, backend@),
                ..old(self)@
            }),
    {
        self.backends.insert(name, backend);
    }

    /// Whether the backend at a position in the failover order can be tried for `path`.
    fn is_eligible(&self, path: &str, i: usize) -> (r: bool)
        requires
            i < self@.config.order.len(),
        ensures
            r == self@.eligible(path@, i as int),
    {
        let name = self.config.failover.order[i].as_str();
        match self.config.find(name) {
            Some(backend) => self.backends.contains(name) && backend.allows(path),
            None => false,
        }
    }

    /// The first position, from `from` on, whose backend can be tried for `path`.
    fn next_candidate(&self, path: &str, from: usize) -> (r: Option<usize>)
        ensures
            match r {
                Some(i) => self@.next_eligible(path@, from as int) == Some(i as int)
                    && self@.eligible(path@, i as int),
                None => self@.next_eligible(path@, from as int) is None,
            },
    {
        let mut i: usize = from;
        while i < self.config.failover.order.len()
            invariant
                self@.next_eligible(path@, from as int) == self@.next_eligible(path@, i as int),
            decreases self.config.failover.order@.len() - i,
        {
            if self.is_eligible(path, i) {
                return Some(i);
            }
            i = i + 1;
        }
        None
    }

    /// The request for the backend at a position.
    fn send(&self, request: &Request, i: usize) -> (r: Action)
        requires
            self@.eligible(request@.path(), i as int),
        ensures
            r@ == self@.send(request@, i as int),
    {
        let name = self.config.failover.order[i].as_str();
        let backend = self.config.find(name).unwrap();
        let url = trim_end(backend.base_url.as_str(), '/').concat(
            request.path_and_query.as_str(),
        );
        let body = if backend.model_map.is_empty() {
            request.body.clone()
        } else {
            rewrite_model(request.body.as_slice(), &backend.model_map)
        };
        let ready = self.backends.get(name).unwrap();
        match &ready.auth {
            BackendAuth::Oauth { token, .. } => Action::Send {
                url,
                authorization: "Bearer ".to_owned().concat(token.access_token.as_str()),
                oauth_beta: true,
                body,
            },
            BackendAuth::ApiKey { key } => Action::Send {
                url,
                authorization: "Bearer ".to_owned().concat(key.as_str()),
                oauth_beta: false,
                body,
            },
        }
    }

    /// Tries the backend at a position.
    fn attempt(&self, request: &Request, i: usize, now_ms: u64) -> (r: (Dispatch, Action))
        requires
            self@.eligible(request@.path(), i as int),
        ensures
            (StepView { app: self@, dispatch: r.0, action: r.1@ }) == self@.attempt(
                request@,
                i as int,
                now_ms,
            ),
    {
        let name = self.config.failover.order[i].as_str();
        let ready = self.backends.get(name).unwrap();
        match &ready.auth {
            BackendAuth::ApiKey { .. } => (
                Dispatch { at: i, phase: Phase::AwaitingKeyed },
                self.send(request, i),
            ),
            BackendAuth::Oauth { credentials_file, .. } => {
                if current_oauth_token(ready, now_ms).is_none() {
                    (
                        Dispatch { at: i, phase: Phase::Refreshing },
                        Action::LoadCredentials { file: credentials_file.clone() },
                    )
                } else {
                    (Dispatch { at: i, phase: Phase::AwaitingFirst }, self.send(request, i))
                }
            },
        }
    }

    /// Goes to the first backend, from a position on, that can be tried.
    fn seek(&mut self, request: &Request, from: usize, now_ms: u64) -> (r: (Dispatch, Action))
        ensures
            (StepView { app: final(self)@, dispatch: r.0, action: r.1@ }) == old(self)@.seek(
                request@,
                from as int,
                now_ms,
            ),
    {
        let i = match self.next_candidate(request.path().as_str(), from) {
            Some(i) => i,
            None => {
                return (
                    Dispatch { at: self.config.failover.order.len(), phase: Phase::Finished },
                    Action::Answer { status: BAD_GATEWAY },
                );
            },
        };
        let name = self.config.failover.order[i].clone();
        self.metrics.inc_requests(name.as_str());
        let rule: Option<(u16, Rate)> = match self.faults.get(name.as_str()) {
            Some(rule) => Some((rule.status, rule.rate)),
            None => None,
        };
        match rule {
            Some((status, rate)) => (
                Dispatch { at: i, phase: Phase::Drawing { status, rate } },
                Action::Draw,
            ),
            None => self.attempt(request, i, now_ms),
        }
    }

    /// Decides on a random number whether a fault rule fires.
    fn on_draw(
        &mut self,
        request: &Request,
        i: usize,
        status: u16,
        rate: Rate,
        draw: u64,
        now_ms: u64,
    ) -> (r: (Dispatch, Action))
        requires
            old(self)@.eligible(request@.path(), i as int),
        ensures
            (StepView { app: final(self)@, dispatch: r.0, action: r.1@ }) == old(self)@.drawn(
                request@,
                i as int,
                status,
                rate,
                draw,
                now_ms,
            ),
    {
        let count: usize = self.config.failover.order.len();
        assert(count == self@.config.order.len());
        if !rate.fires(draw) {
            return self.attempt(request, i, now_ms);
        }
        let name = self.config.failover.order[i].clone();
        self.metrics.inc_faults();
        self.metrics.set_last_status(name.as_str(), status);
        if has_status(&self.config.failover.triggers, status) {
            self.metrics.inc_failovers();
            return self.seek(request, i + 1, now_ms);
        }
        (
            Dispatch { at: i, phase: Phase::Finished },
            Action::Answer { status: answer_status(status) },
        )
    }

    /// Stores a credential that was loaded, and sends the request.
    fn on_load(
        &mut self,
        request: &Request,
        i: usize,
        loaded: Result<OAuthCredential, CredentialsError>,
        phase: Phase,
    ) -> (r: (Dispatch, Action))
        requires
            old(self)@.eligible(request@.path(), i as int),
            old(self)@.auth_at(i as int) is Oauth,
        ensures
            (StepView { app: final(self)@, dispatch: r.0, action: r.1@ }) == old(self)@.loaded(
                request@,
                i as int,
                loaded_view(loaded),
                phase,
            ),
    {
        let name = self.config.failover.order[i].clone();
        let mut backend = self.backends.remove(name.as_str()).unwrap();
        reload_token(&mut backend, loaded);
        self.backends.insert(name, backend);
        assert(self@.backends =~= old(self)@.backends.insert(
            old(self)@.config.order[i as int],
            backend@,
        ));
        (Dispatch { at: i, phase }, self.send(request, i))
    }

    /// Takes a reply that stands.
    fn settle(&mut self, request: &Request, i: usize, status: u16, now_ms: u64) -> (r: (
        Dispatch,
        Action,
    ))
        requires
            old(self)@.eligible(request@.path(), i as int),
        ensures
            (StepView { app: final(self)@, dispatch: r.0, action: r.1@ }) == old(self)@.settle(
                request@,
                i as int,
                status,
                now_ms,
            ),
    {
        let count: usize = self.config.failover.order.len();
        assert(count == self@.config.order.len());
        let name = self.config.failover.order[i].clone();
        self.metrics.set_last_status(name.as_str(), status);
        if has_status(&self.config.failover.triggers, status) {
            self.metrics.inc_failovers();
            return self.seek(request, i + 1, now_ms);
        }
        (Dispatch { at: i, phase: Phase::Finished }, Action::Relay)
    }

    /// Starts a request: what is to be done first, and what it then waits for. `now_ms` is the time
    /// in milliseconds since the Unix epoch.
    pub fn begin(&mut self, request: &Request, now_ms: u64) -> (r: (Dispatch, Action))
        ensures
            (StepView { app: final(self)@, dispatch: r.0, action: r.1@ }) == old(self)@.seek(
                request@,
                0,
                now_ms,
            ),
            final(self)@.fits(request@, r.0),
    {
        let count: usize = self.config.failover.order.len();
        assert(count == self@.config.order.len());
        proof {
            lemma_seek_fits(self@, request@, 0, now_ms);
        }
        self.seek(request, 0, now_ms)
    }

    /// Takes what came of the last action of a request: what is to be done next, and what it then
    /// waits for.
    pub fn advance(
        &mut self,
        request: &Request,
        dispatch: Dispatch,
        event: Event,
        now_ms: u64,
    ) -> (r: (Dispatch, Action))
        requires
            old(self)@.fits(request@, dispatch),
            expects(dispatch.phase, event@),
        ensures
            (StepView { app: final(self)@, dispatch: r.0, action: r.1@ }) == old(self)@.step(
                request@,
                dispatch,
                event@,
                now_ms,
            ),
            final(self)@.fits(request@, r.0),
    {
        let count: usize = self.config.failover.order.len();
        assert(count == self@.config.order.len());
        proof {
            law_steps_fit(self@, request@, dispatch, event@, now_ms);
        }
        let i = dispatch.at;
        match event {
            Event::Drawn { draw } => match dispatch.phase {
                Phase::Drawing { status, rate } => {
                    self.on_draw(request, i, status, rate, draw, now_ms)
                },
                _ => self.seek(request, i + 1, now_ms),
            },
            Event::Loaded { loaded } => match dispatch.phase {
                Phase::Refreshing => self.on_load(request, i, loaded, Phase::AwaitingFirst),
                _ => self.on_load(request, i, loaded, Phase::AwaitingRetry),
            },
            Event::Replied { status } => match status {
                None => self.seek(request, i + 1, now_ms),
                Some(status) => match dispatch.phase {
                    Phase::AwaitingFirst => if status == UNAUTHORIZED {
                        let name = self.config.failover.order[i].as_str();
                        let file = match &self.backends.get(name).unwrap().auth {
                            BackendAuth::Oauth { credentials_file, .. } => credentials_file.clone(),
                            BackendAuth::ApiKey { key } => key.clone(),
                        };
                        (
                            Dispatch { at: i, phase: Phase::Reloading },
                            Action::LoadCredentials { file },
                        )
                    } else {
                        self.settle(request, i, status, now_ms)
                    },
                    Phase::AwaitingRetry => if status == UNAUTHORIZED {
                        self.seek(request, i + 1, now_ms)
                    } else {
                        self.settle(request, i, status, now_ms)
                    },
                    _ => self.settle(request, i, status, now_ms),
                },
            },
        }
    }
}

/// The names of a list of backends.
pub open spec fn backend_names(backends: Seq<BackendView>) -> Seq<Seq<char>> {
    Seq::new(backends.len(), |i: int| backends[i].name)
}

impl AppView {
    /// A proxy that has not done anything since its start.
    pub open spec fn initial(config: ConfigView, start_time: Instant) -> AppView {
        AppView {
            config,
            backends: Map::empty(),
            faults: rules_by_backend(config.fault_injection.rules),
            metrics: MetricsView::fresh(backend_names(config.backends), start_time),
        }
    }
}

/// Seeking ends at the first position whose backend can be tried, and nowhere exactly where there
/// is none.
pub proof fn law_seek_finds_the_first(app: AppView, path: Seq<char>, from: int)
    requires
        0 <= from,
    ensures
        match app.next_eligible(path, from) {
            Some(i) => from <= i && app.eligible(path, i) && forall|j: int|
                from <= j < i ==> !app.eligible(path, j),
            None => forall|j: int| from <= j ==> !app.eligible(path, j),
        },
    decreases app.config.order.len() - from,
{
    if from < app.config.order.len() && !app.eligible(path, from) {
        law_seek_finds_the_first(app, path, from + 1);
    }
}

/// Seeking leads to a dispatch that fits.
proof fn lemma_seek_fits(app: AppView, request: RequestView, from: int, now_ms: u64)
    requires
        0 <= from,
        app.config.order.len() <= usize::MAX,
    ensures
        app.seek(request, from, now_ms).app.fits(
            request,
            app.seek(request, from, now_ms).dispatch,
        ),
{
    law_seek_finds_the_first(app, request.path(), from);
}

/// A step of a request that stands at a backend that can be tried leads to one that does, too.
pub proof fn law_steps_fit(
    app: AppView,
    request: RequestView,
    dispatch: Dispatch,
    event: EventView,
    now_ms: u64,
)
    requires
        app.config.order.len() <= usize::MAX,
        app.fits(request, dispatch),
        expects(dispatch.phase, event),
    ensures
        app.step(request, dispatch, event, now_ms).app.fits(
            request,
            app.step(request, dispatch, event, now_ms).dispatch,
        ),
{
    let i = dispatch.at as int;
    assert forall|m: MetricsView| #[trigger]
        (AppView { metrics: m, ..app }).seek(request, i + 1, now_ms).app.fits(
            request,
            (AppView { metrics: m, ..app }).seek(request, i + 1, now_ms).dispatch,
        ) by {
        lemma_seek_fits(AppView { metrics: m, ..app }, request, i + 1, now_ms);
    }
    lemma_seek_fits(app, request, i + 1, now_ms);
}

/// The constants of the proxy.
pub proof fn law_constants()
    ensures
        OAUTH_BETA@ == "oauth-2025-04-20"@,
        BAD_GATEWAY == 502,
        INTERNAL_SERVER_ERROR == 500,
        UNAUTHORIZED == 401,
        MAX_BODY == 16 * 1024 * 1024,
{
}

/// A proxy starts with no backend ready, with counters at 0 for the configured backends, and with
/// the last of the configured rules for each backend.
pub proof fn law_how_a_proxy_starts(
    config: ConfigView,
    start_time: Instant,
    name: Seq<char>,
    i: int,
)
    ensures
        ({
            let app = AppView::initial(config, start_time);
            let configured = exists|k: int|
                0 <= k < config.backends.len() && (#[trigger] config.backends[k]).name == name;
            &&& app.config == config
            &&& !app.backends.contains_key(name)
            &&& app.metrics.start_time == start_time
            &&& app.metrics.failovers == 0
            &&& app.metrics.faults_injected == 0
            &&& app.metrics.requests.contains_key(name) <==> configured
            &&& app.metrics.last_status.contains_key(name) <==> configured
            &&& configured ==> app.metrics.requests[name] == 0 && app.metrics.last_status[name] == 0
            &&& app.faults.contains_key(name) <==> exists|k: int|
                0 <= k < config.fault_injection.rules.len() && (
                #[trigger] config.fault_injection.rules[k]).backend == name
            &&& (0 <= i < config.fault_injection.rules.len()
                && config.fault_injection.rules[i].backend == name && forall|k: int|
                i < k < config.fault_injection.rules.len() ==> (
                #[trigger] config.fault_injection.rules[k]).backend != name) ==> app.faults[name]
                == config.fault_injection.rules[i]
        }),
{
    let names = backend_names(config.backends);
    if names.contains(name) {
        let k = choose|k: int| 0 <= k < names.len() && names[k] == name;
        assert(config.backends[k].name == name);
    }
    if exists|k: int|
        0 <= k < config.backends.len() && (#[trigger] config.backends[k]).name == name {
        let k = choose|k: int|
            0 <= k < config.backends.len() && (#[trigger] config.backends[k]).name == name;
        assert(names[k] == name);
    }
    let rules = config.fault_injection.rules;
    law_last_rule_counts(rules, name);
    if 0 <= i < rules.len() && rules[i].backend == name && forall|k: int|
        i < k < rules.len() ==> (#[trigger] rules[k]).backend != name {
        let j = choose|j: int|
            0 <= j < rules.len() && #[trigger] rules[j] == rules_by_backend(rules)[name]
                && rules[j].backend == name && forall|k: int|
                j < k < rules.len() ==> (#[trigger] rules[k]).backend != name;
        if i < j {
            assert(rules[j].backend != name);
        }
        if j < i {
            assert(rules[i].backend != name);
        }
    }
}

/// What each error says.
pub proof fn law_what_startup_errors_say(backend: String)
    ensures
        (StartupError::NoCredentialsFile { backend }).text() == "backend '"@ + backend@
            + "' has no credentials_file field"@,
        (StartupError::NoKey { backend }).text() == "backend '"@ + backend@
            + "' has no key field"@,
{
}

/// The contents of a proxy, of a request and of a backend that is ready are their fields.
pub proof fn law_contents_of_a_proxy(
    app: AppState,
    request: Request,
    file: String,
    token: OAuthCredential,
    key: String,
)
    ensures
        app@.config == app.config@,
        app@.backends == app.backends@,
        app@.faults == app.faults@,
        app@.metrics == app.metrics@,
        request@.target == request.path_and_query@,
        request@.body == request.body@,
        (BackendState { auth: BackendAuth::Oauth { credentials_file: file, token } })@ == (
        AuthView::Oauth { credentials_file: file@, token: token@ }),
        (BackendState { auth: BackendAuth::ApiKey { key } })@ == (AuthView::ApiKey { key: key@ }),
{
}

/// The contents of actions and events are their fields.
pub proof fn law_contents_of_actions_and_events(
    url: String,
    authorization: String,
    oauth_beta: bool,
    body: Vec<u8>,
    reply: u16,
    status: Option<u16>,
    draw: u64,
    token: OAuthCredential,
    error: CredentialsError,
)
    ensures
        Action::Draw@ == ActionView::Draw,
        (Action::LoadCredentials { file: url })@ == (ActionView::LoadCredentials { file: url@ }),
        (Action::Send { url, authorization, oauth_beta, body })@ == (ActionView::Send {
            url: url@,
            authorization: authorization@,
            oauth_beta,
            body: body@,
        }),
        Action::Relay@ == ActionView::Relay,
        (Action::Answer { status: reply })@ == (ActionView::Answer { status: reply }),
        (Event::Drawn { draw })@ == (EventView::Drawn { draw }),
        (Event::Loaded { loaded: Ok(token) })@ == (EventView::Loaded { loaded: Some(token@) }),
        (Event::Loaded { loaded: Err(error) })@ == (EventView::Loaded { loaded: None }),
        (Event::Replied { status })@ == (EventView::Replied { status }),
{
}

/// What each phase waits for, and nothing else.
pub proof fn law_what_phases_wait_for(status: u16, rate: Rate, event: EventView)
    ensures
        expects(Phase::Drawing { status, rate }, event) <==> event is Drawn,
        expects(Phase::Refreshing, event) <==> event is Loaded,
        expects(Phase::Reloading, event) <==> event is Loaded,
        expects(Phase::AwaitingFirst, event) <==> event is Replied,
        expects(Phase::AwaitingRetry, event) <==> event is Replied,
        expects(Phase::AwaitingKeyed, event) <==> event is Replied,
        !expects(Phase::Finished, event),
{
}

} // verus!
