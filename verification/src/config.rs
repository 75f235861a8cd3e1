//! The configuration, and the credentials that it names.

use vstd::prelude::*;
use vstd::string::*;

use crate::rate::{Rate, ONE};
use crate::secrets::{
    is_ref, resolution, resolve_ref, RefError, RefErrorView, SecretsSource, SecretsView,
};
use crate::table::{names_of, Table};
use crate::text::{
    begins, copy_all, law_beginnings_are_continued, same, starts_with, texts,
};

verus! {

/// The contents of an optional string.
pub open spec fn optional_text(o: Option<String>) -> Option<Seq<char>> {
    match o {
        Some(s) => Some(s@),
        None => None,
    }
}

/// How a backend authenticates requests.
#[derive(Debug, Clone, Copy, PartialEq, Eq, Structural)]
pub enum AuthConfig {
    Oauth,
    ApiKey,
}

impl Default for AuthConfig {
    fn default() -> (r: AuthConfig)
        ensures
            r == AuthConfig::Oauth,
    {
        AuthConfig::Oauth
    }
}

/// Where the secrets are.
pub struct SecretsConfig {
    /// The path of a TOML file, which may start with `~`.
    pub source: String,
}

/// Where the proxy listens.
pub struct ProxyConfig {
    pub listen: String,
}

/// An upstream that requests can be forwarded to.
pub struct Backend {
    pub name: String,
    pub base_url: String,
    pub auth: AuthConfig,
    /// The path of the OAuth credentials file. Required for `AuthConfig::Oauth`.
    pub credentials_file: Option<String>,
    /// The API key. Required for `AuthConfig::ApiKey`.
    pub key: Option<String>,
    /// The model id to use upstream for each model id of a client.
    pub model_map: Table<String>,
    /// If not empty, the prefixes of the paths that this backend is tried for. Where absent, the
    /// kind of authentication decides.
    pub allowed_path_prefixes: Option<Vec<String>>,
}

/// The contents of a `Backend`.
pub struct BackendView {
    pub name: Seq<char>,
    pub base_url: Seq<char>,
    pub auth: AuthConfig,
    pub credentials_file: Option<Seq<char>>,
    pub key: Option<Seq<char>>,
    pub model_map: Map<Seq<char>, Seq<char>>,
    /// The model ids of clients, in the order in which they are listed.
    pub model_names: Seq<Seq<char>>,
    pub allowed_path_prefixes: Option<Seq<Seq<char>>>,
}

impl View for Backend {
    type V = BackendView;

    open spec fn view(&self) -> BackendView {
        BackendView {
            name: self.name@,
            base_url: self.base_url@,
            auth: self.auth,
            credentials_file: optional_text(self.credentials_file),
            key: optional_text(self.key),
            model_map: self.model_map@,
            model_names: self.model_map.names(),
            allowed_path_prefixes: match self.allowed_path_prefixes {
                Some(list) => Some(texts(list@)),
                None => None,
            },
        }
    }
}

/// The contents of a list of backends.
pub open spec fn backend_views(backends: Seq<Backend>) -> Seq<BackendView> {
    Seq::new(backends.len(), |i: int| backends[i]@)
}

/// The paths that backends with an API key are tried for by default: inference only, so that no
/// traffic about authentication leaves for another upstream.
pub open spec fn default_api_key_prefix() -> Seq<char> {
    "/v1/messages"@
}

/// Whether a list of prefixes admits `path`: an empty list admits every path.
pub open spec fn admits(prefixes: Seq<Seq<char>>, path: Seq<char>) -> bool {
    prefixes.len() == 0 || exists|i: int|
        0 <= i < prefixes.len() && begins(path, #[trigger] prefixes[i])
}

impl BackendView {
    /// The prefixes in force: the configured ones, else those of the kind of authentication.
    pub open spec fn effective_prefixes(self) -> Seq<Seq<char>> {
        match self.allowed_path_prefixes {
            Some(list) => list,
            None => match self.auth {
                AuthConfig::Oauth => Seq::empty(),
                AuthConfig::ApiKey => seq![default_api_key_prefix()],
            },
        }
    }

    /// Whether the backend may be tried for `path`.
    pub open spec fn serves(self, path: Seq<char>) -> bool {
        admits(self.effective_prefixes(), path)
    }
}

/// The first backend with the name `name`.
pub open spec fn find_backend(backends: Seq<BackendView>, name: Seq<char>) -> Option<BackendView>
    decreases backends.len(),
{
    if backends.len() == 0 {
        None
    } else {
        match find_backend(backends.drop_last(), name) {
            Some(b) => Some(b),
            None => if backends.last().name == name {
                Some(backends.last())
            } else {
                None
            },
        }
    }
}

/// The first backend whose name stands for `name`.
pub open spec fn find_declared(
    backends: Seq<BackendView>,
    name: Seq<char>,
    secrets: SecretsView,
) -> Option<BackendView>
    decreases backends.len(),
{
    if backends.len() == 0 {
        None
    } else {
        match find_declared(backends.drop_last(), name, secrets) {
            Some(b) => Some(b),
            None => if resolution(backends.last().name, secrets) == Ok::<Seq<char>, RefErrorView>(
                name,
            ) {
                Some(backends.last())
            } else {
                None
            },
        }
    }
}

impl Backend {
    /// The allowlist in force: what the configuration says, else a default for the kind of
    /// authentication.
    pub fn effective_allowed_path_prefixes(&self) -> (r: Vec<String>)
        ensures
            texts(r@) == self@.effective_prefixes(),
    {
        if let Some(list) = &self.allowed_path_prefixes {
            return copy_all(list);
        }
        let mut out: Vec<String> = Vec::new();
        match self.auth {
            AuthConfig::Oauth => {
                assert(texts(out@) == Seq::<Seq<char>>::empty());
            },
            AuthConfig::ApiKey => {
                out.push("/v1/messages".to_owned());
                assert(texts(out@) == seq![default_api_key_prefix()]);
            },
        }
        out
    }

    /// Whether the backend may be tried for `path`.
    pub fn allows(&self, path: &str) -> (r: bool)
        ensures
            r == self@.serves(path@),
    {
        let allowed = self.effective_allowed_path_prefixes();
        let ghost prefixes = self@.effective_prefixes();
        if allowed.len() == 0 {
            assert(prefixes.len() == 0);
            return true;
        }
        assert(prefixes.len() == allowed@.len());
        let mut i: usize = 0;
        while i < allowed.len()
            invariant
                i <= allowed@.len(),
                texts(allowed@) == prefixes,
                prefixes == self@.effective_prefixes(),
                prefixes.len() == allowed@.len(),
                forall|j: int| 0 <= j < i ==> !begins(path@, #[trigger] prefixes[j]),
            decreases allowed@.len() - i,
        {
            assert(prefixes[i as int] == allowed@[i as int]@);
            if starts_with(path, allowed[i].as_str()) {
                assert(begins(path@, prefixes[i as int]));
                return true;
            }
            i = i + 1;
        }
        false
    }
}

/// In what order backends are tried, and on which statuses the next one is.
pub struct FailoverConfig {
    pub order: Vec<String>,
    pub triggers: Vec<u16>,
}

/// The statuses on which the next backend is tried, where the configuration names none.
pub fn default_triggers() -> (r: Vec<u16>)
    ensures
        r@ == seq![500u16, 502, 503, 504, 429, 529],
{
    vec![500, 502, 503, 504, 429, 529]
}

/// A status that a backend answers at random in place of being asked.
#[derive(Debug, Clone)]
pub struct FaultRule {
    pub backend: String,
    /// The HTTP status to answer.
    pub status: u16,
    /// How likely the rule is to fire on a request.
    pub rate: Rate,
}

/// The contents of a `FaultRule`.
pub struct FaultView {
    pub backend: Seq<char>,
    pub status: u16,
    pub rate: Rate,
}

impl View for FaultRule {
    type V = FaultView;

    open spec fn view(&self) -> FaultView {
        FaultView { backend: self.backend@, status: self.status, rate: self.rate }
    }
}

impl FaultRule {
    /// The same rule again.
    pub fn copy(&self) -> (r: FaultRule)
        ensures
            r@ == self@,
    {
        FaultRule { backend: self.backend.clone(), status: self.status, rate: self.rate }
    }
}

/// The rate of a rule that names none: it always fires.
pub fn default_rate() -> (r: Rate)
    ensures
        r.bits == ONE,
        r.bits == 0x3ff0_0000_0000_0000,
{
    Rate { bits: ONE }
}

/// The fault rules that the proxy starts with.
pub struct FaultInjectionConfig {
    pub enabled: bool,
    pub rules: Vec<FaultRule>,
}

/// The contents of a list of rules.
pub open spec fn fault_views(rules: Seq<FaultRule>) -> Seq<FaultView> {
    Seq::new(rules.len(), |i: int| rules[i]@)
}

/// The contents of a `FaultInjectionConfig`.
pub struct FaultInjectionView {
    pub enabled: bool,
    pub rules: Seq<FaultView>,
}

impl View for FaultInjectionConfig {
    type V = FaultInjectionView;

    open spec fn view(&self) -> FaultInjectionView {
        FaultInjectionView { enabled: self.enabled, rules: fault_views(self.rules@) }
    }
}

/// The rules by the name of their backend: of several for one backend the last counts.
pub open spec fn rules_by_backend(rules: Seq<FaultView>) -> Map<Seq<char>, FaultView>
    decreases rules.len(),
{
    if rules.len() == 0 {
        Map::empty()
    } else {
        rules_by_backend(rules.drop_last()).insert(rules.last().backend, rules.last())
    }
}

impl Default for FaultInjectionConfig {
    fn default() -> (r: FaultInjectionConfig)
        ensures
            !r.enabled,
            r.rules@.len() == 0,
    {
        FaultInjectionConfig { enabled: false, rules: Vec::new() }
    }
}

impl FaultInjectionConfig {
    /// The rules by the name of their backend.
    pub fn as_map(&self) -> (r: Table<FaultRule>)
        ensures
            r@ == rules_by_backend(self@.rules),
    {
        let mut out: Table<FaultRule> = Table::new();
        let ghost views = fault_views(self.rules@);
        let mut i: usize = 0;
        while i < self.rules.len()
            invariant
                i <= self.rules@.len(),
                views == fault_views(self.rules@),
                out@ == rules_by_backend(views.take(i as int)),
            decreases self.rules@.len() - i,
        {
            let rule = &self.rules[i];
            assert(views.take(i + 1).drop_last() == views.take(i as int));
            assert(views.take(i + 1).last() == rule@);
            out.insert(rule.backend.clone(), rule.copy());
            i = i + 1;
        }
        assert(views.take(i as int) == views);
        out
    }
}

/// The path with `home` in place of a leading `~` that stands alone or before a slash.
pub open spec fn expanded(path: Seq<char>, home: Option<Seq<char>>) -> Seq<char> {
    if path.len() > 0 && path[0] == '~' && (path.len() == 1 || path[1] == '/') && home is Some {
        home->0 + path.skip(1)
    } else {
        path
    }
}

/// Whether a path begins with `~` and a backslash, which is a separator on some systems.
pub open spec fn before_backslash(path: Seq<char>) -> bool {
    path.len() > 1 && path[0] == '~' && path[1] == '\\'
}

/// Whether a path becomes `r` where the home directory is `home`. Before a backslash the system
/// decides whether a leading `~` is expanded.
pub open spec fn expands_to(path: Seq<char>, home: Option<Seq<char>>, r: Seq<char>) -> bool {
    ||| r == expanded(path, home)
    ||| before_backslash(path) && home is Some && r == home->0 + path.skip(1)
}

/// Whether a path becomes `r` with some home directory, or none.
pub open spec fn tilde_expansion(path: Seq<char>, r: Seq<char>) -> bool {
    exists|home: Option<Seq<char>>| #[trigger] expands_to(path, home, r)
}

/// `shellexpand::tilde`: puts the home directory in place of a leading `~` that stands alone or
/// before a separator, if there is a home directory, and leaves every other path as it is. Which
/// directory that is depends on the environment, and nothing is claimed of it.
#[verifier::external_body]
fn tilde(path: &str) -> (r: String)
    ensures
        tilde_expansion(path@, r@),
{
    shellexpand::tilde(path).into_owned()
}

/// `shellexpand::tilde_with_context`: the same with the home directory `home`.
#[verifier::external_body]
fn tilde_with(path: &str, home: Option<&str>) -> (r: String)
    ensures
        expands_to(path@, optional_str(home), r@),
{
    shellexpand::tilde_with_context(path, || home).into_owned()
}

/// The contents of an optional string slice.
pub open spec fn optional_str(o: Option<&str>) -> Option<Seq<char>> {
    match o {
        Some(s) => Some(s@),
        None => None,
    }
}

/// The path with a leading `~` expanded. Which home directory takes its place depends on the
/// environment; `expand_path_with` says what becomes of each.
pub fn expand_path(path: &str) -> (r: String)
    ensures
        tilde_expansion(path@, r@),
        path@.len() == 0 || path@[0] != '~' ==> r@ == path@,
{
    tilde(path)
}

/// The path with a leading `~` expanded to `home`.
pub fn expand_path_with(path: &str, home: Option<&str>) -> (r: String)
    ensures
        expands_to(path@, optional_str(home), r@),
        !before_backslash(path@) ==> r@ == expanded(path@, optional_str(home)),
{
    tilde_with(path, home)
}

/// The whole configuration.
pub struct Config {
    pub proxy: ProxyConfig,
    pub backends: Vec<Backend>,
    pub failover: FailoverConfig,
    pub fault_injection: FaultInjectionConfig,
    /// The file that `$REF:dotted.path` values in any other field are resolved against.
    pub secrets: Option<SecretsConfig>,
}

/// The contents of a `Config`.
pub struct ConfigView {
    pub listen: Seq<char>,
    pub backends: Seq<BackendView>,
    pub order: Seq<Seq<char>>,
    pub triggers: Seq<u16>,
    pub fault_injection: FaultInjectionView,
    pub secrets_source: Option<Seq<char>>,
}

impl View for Config {
    type V = ConfigView;

    open spec fn view(&self) -> ConfigView {
        ConfigView {
            listen: self.proxy.listen@,
            backends: backend_views(self.backends@),
            order: texts(self.failover.order@),
            triggers: self.failover.triggers@,
            fault_injection: self.fault_injection@,
            secrets_source: match self.secrets {
                Some(s) => Some(s.source@),
                None => None,
            },
        }
    }
}

/// What an optional value stands for.
pub open spec fn resolve_field(value: Option<Seq<char>>, secrets: SecretsView) -> Result<
    Option<Seq<char>>,
    RefErrorView,
> {
    match value {
        None => Ok(None),
        Some(text) => match resolution(text, secrets) {
            Ok(found) => Ok(Some(found)),
            Err(e) => Err(e),
        },
    }
}

/// A backend with its credentials file and its key resolved, in this order. A field that does not
/// resolve is left empty, and the error is the second component.
pub open spec fn resolve_backend(b: BackendView, secrets: SecretsView) -> (
    BackendView,
    Option<RefErrorView>,
) {
    match resolve_field(b.credentials_file, secrets) {
        Err(e) => (BackendView { credentials_file: None, ..b }, Some(e)),
        Ok(credentials_file) => match resolve_field(b.key, secrets) {
            Err(e) => (BackendView { credentials_file, key: None, ..b }, Some(e)),
            Ok(key) => (BackendView { credentials_file, key, ..b }, None),
        },
    }
}

/// The backends, each resolved, up to the first that does not resolve.
pub open spec fn resolve_backends(backends: Seq<BackendView>, secrets: SecretsView) -> (
    Seq<BackendView>,
    Option<RefErrorView>,
)
    decreases backends.len(),
{
    if backends.len() == 0 {
        (backends, None)
    } else {
        let (done, error) = resolve_backends(backends.drop_last(), secrets);
        if error is Some {
            (done.push(backends.last()), error)
        } else {
            let (b, error) = resolve_backend(backends.last(), secrets);
            (done.push(b), error)
        }
    }
}

/// The texts of a list, each resolved, or the error of the first that does not resolve.
pub open spec fn resolve_texts(list: Seq<Seq<char>>, secrets: SecretsView) -> Result<
    Seq<Seq<char>>,
    RefErrorView,
>
    decreases list.len(),
{
    if list.len() == 0 {
        Ok(list)
    } else {
        match resolve_texts(list.drop_last(), secrets) {
            Err(e) => Err(e),
            Ok(done) => match resolution(list.last(), secrets) {
                Ok(found) => Ok(done.push(found)),
                Err(e) => Err(e),
            },
        }
    }
}

/// The texts of an optional list, each resolved.
pub open spec fn resolve_list(list: Option<Seq<Seq<char>>>, secrets: SecretsView) -> Result<
    Option<Seq<Seq<char>>>,
    RefErrorView,
> {
    match list {
        None => Ok(None),
        Some(list) => match resolve_texts(list, secrets) {
            Ok(found) => Ok(Some(found)),
            Err(e) => Err(e),
        },
    }
}

/// The values of a map, in the order of `names`.
pub open spec fn values_of(map: Map<Seq<char>, Seq<char>>, names: Seq<Seq<char>>) -> Seq<Seq<char>> {
    Seq::new(names.len(), |i: int| map[names[i]])
}

/// The map with what each value stands for.
pub open spec fn resolved_values(map: Map<Seq<char>, Seq<char>>, secrets: SecretsView) -> Map<
    Seq<char>,
    Seq<char>,
> {
    Map::new(
        |name: Seq<char>| map.contains_key(name),
        |name: Seq<char>| resolution(map[name], secrets)->Ok_0,
    )
}

/// A backend with its name, its address, its upstream model ids and its allowlist resolved, in this
/// order.
pub open spec fn resolve_details(b: BackendView, secrets: SecretsView) -> Result<
    BackendView,
    RefErrorView,
> {
    match resolution(b.name, secrets) {
        Err(e) => Err(e),
        Ok(name) => match resolution(b.base_url, secrets) {
            Err(e) => Err(e),
            Ok(base_url) => match resolve_texts(values_of(b.model_map, b.model_names), secrets) {
                Err(e) => Err(e),
                Ok(_) => match resolve_list(b.allowed_path_prefixes, secrets) {
                    Err(e) => Err(e),
                    Ok(allowed_path_prefixes) => Ok(
                        BackendView {
                            name,
                            base_url,
                            model_map: resolved_values(b.model_map, secrets),
                            allowed_path_prefixes,
                            ..b
                        },
                    ),
                },
            },
        },
    }
}

/// The backends, each with its details resolved, or the error of the first that does not resolve.
pub open spec fn resolve_all_details(backends: Seq<BackendView>, secrets: SecretsView) -> Result<
    Seq<BackendView>,
    RefErrorView,
>
    decreases backends.len(),
{
    if backends.len() == 0 {
        Ok(backends)
    } else {
        match resolve_all_details(backends.drop_last(), secrets) {
            Err(e) => Err(e),
            Ok(done) => match resolve_details(backends.last(), secrets) {
                Ok(b) => Ok(done.push(b)),
                Err(e) => Err(e),
            },
        }
    }
}

/// The backends that a list of rules names.
pub open spec fn rule_backends(rules: Seq<FaultView>) -> Seq<Seq<char>> {
    Seq::new(rules.len(), |i: int| rules[i].backend)
}

/// The rules with the names of their backends resolved.
pub open spec fn resolve_rules(rules: Seq<FaultView>, secrets: SecretsView) -> Result<
    Seq<FaultView>,
    RefErrorView,
> {
    match resolve_texts(rule_backends(rules), secrets) {
        Err(e) => Err(e),
        Ok(names) => Ok(
            Seq::new(rules.len(), |i: int| FaultView { backend: names[i], ..rules[i] }),
        ),
    }
}

/// A configuration with every text resolved but credentials files, keys and the secrets source: the
/// address to listen on, the details of the backends, the failover order and the fault rules, in
/// this order.
pub open spec fn resolve_rest(c: ConfigView, secrets: SecretsView) -> Result<
    ConfigView,
    RefErrorView,
> {
    match resolution(c.listen, secrets) {
        Err(e) => Err(e),
        Ok(listen) => match resolve_all_details(c.backends, secrets) {
            Err(e) => Err(e),
            Ok(backends) => match resolve_texts(c.order, secrets) {
                Err(e) => Err(e),
                Ok(order) => match resolve_rules(c.fault_injection.rules, secrets) {
                    Err(e) => Err(e),
                    Ok(rules) => Ok(
                        ConfigView {
                            listen,
                            backends,
                            order,
                            fault_injection: FaultInjectionView { rules, ..c.fault_injection },
                            ..c
                        },
                    ),
                },
            },
        },
    }
}

/// A configuration with its references resolved: credentials files and keys first, and then
/// everything else, which is left as it is if any of it does not resolve. The first error is the
/// second component.
pub open spec fn resolve_config(c: ConfigView, secrets: SecretsView) -> (
    ConfigView,
    Option<RefErrorView>,
) {
    let (backends, error) = resolve_backends(c.backends, secrets);
    let keyed = ConfigView { backends, ..c };
    if error is Some {
        (keyed, error)
    } else {
        match resolve_rest(keyed, secrets) {
            Ok(all) => (all, None),
            Err(e) => (keyed, Some(e)),
        }
    }
}

/// A list that does not resolve up to `n` does not resolve, with the same error.
proof fn lemma_texts_stuck(list: Seq<Seq<char>>, secrets: SecretsView, n: int)
    requires
        0 <= n <= list.len(),
        resolve_texts(list.take(n), secrets) is Err,
    ensures
        resolve_texts(list, secrets) == resolve_texts(list.take(n), secrets),
    decreases list.len(),
{
    if n < list.len() {
        assert(list.drop_last().take(n) == list.take(n));
        lemma_texts_stuck(list.drop_last(), secrets, n);
    } else {
        assert(list.take(n) == list);
    }
}

/// Backends whose details do not resolve up to `n` do not resolve, with the same error.
proof fn lemma_details_stuck(backends: Seq<BackendView>, secrets: SecretsView, n: int)
    requires
        0 <= n <= backends.len(),
        resolve_all_details(backends.take(n), secrets) is Err,
    ensures
        resolve_all_details(backends, secrets) == resolve_all_details(backends.take(n), secrets),
    decreases backends.len(),
{
    if n < backends.len() {
        assert(backends.drop_last().take(n) == backends.take(n));
        lemma_details_stuck(backends.drop_last(), secrets, n);
    } else {
        assert(backends.take(n) == backends);
    }
}

/// A list resolves exactly where each of its texts does, and then each stands for what it stands
/// for by itself.
pub proof fn law_lists_resolve_one_by_one(list: Seq<Seq<char>>, secrets: SecretsView)
    ensures
        resolve_texts(list, secrets) is Ok <==> forall|i: int|
            0 <= i < list.len() ==> resolution(#[trigger] list[i], secrets) is Ok,
        resolve_texts(list, secrets) matches Ok(found) ==> found.len() == list.len() && forall|
            i: int,
        |
            0 <= i < list.len() ==> resolution(list[i], secrets) == Ok::<Seq<char>, RefErrorView>(
                #[trigger] found[i],
            ),
    decreases list.len(),
{
    if list.len() > 0 {
        let rest = list.drop_last();
        law_lists_resolve_one_by_one(rest, secrets);
        assert forall|i: int| 0 <= i < rest.len() implies rest[i] == #[trigger] list[i] by {
        }
        assert(list[list.len() - 1] == list.last());
        if resolve_texts(rest, secrets) is Err {
            let i = choose|i: int|
                0 <= i < rest.len() && resolution(#[trigger] rest[i], secrets) is Err;
            assert(resolution(list[i], secrets) is Err);
        }
    }
}

/// Resolves each text of a list.
fn resolve_each(list: &Vec<String>, secrets: &SecretsSource) -> (r: Result<Vec<String>, RefError>)
    ensures
        match r {
            Ok(found) => resolve_texts(texts(list@), secrets@) == Ok::<
                Seq<Seq<char>>,
                RefErrorView,
            >(texts(found@)),
            Err(e) => resolve_texts(texts(list@), secrets@) == Err::<Seq<Seq<char>>, RefErrorView>(
                e@,
            ),
        },
{
    let ghost all = texts(list@);
    let mut out: Vec<String> = Vec::new();
    let mut i: usize = 0;
    assert(texts(out@) == all.take(0));
    while i < list.len()
        invariant
            i <= list@.len(),
            all == texts(list@),
            resolve_texts(all.take(i as int), secrets@) == Ok::<Seq<Seq<char>>, RefErrorView>(
                texts(out@),
            ),
        decreases list@.len() - i,
    {
        assert(all.take(i + 1).drop_last() == all.take(i as int));
        assert(all.take(i + 1).last() == list@[i as int]@);
        match resolve_ref(list[i].as_str(), secrets) {
            Ok(found) => {
                let ghost done = texts(out@);
                out.push(found);
                assert(texts(out@) == done.push(found@));
            },
            Err(e) => {
                proof {
                    lemma_texts_stuck(all, secrets@, i + 1);
                }
                return Err(e);
            },
        }
        i = i + 1;
    }
    assert(all.take(i as int) == all);
    Ok(out)
}

/// Resolves the values of a table, in the order of its names.
fn resolve_values(table: &Table<String>, secrets: &SecretsSource) -> (r: Result<
    Table<String>,
    RefError,
>)
    ensures
        match r {
            Ok(found) => {
                &&& resolve_texts(values_of(table@, table.names()), secrets@) is Ok
                &&& found@ == resolved_values(table@, secrets@)
                &&& found.names() == table.names()
            },
            Err(e) => resolve_texts(values_of(table@, table.names()), secrets@) == Err::<
                Seq<Seq<char>>,
                RefErrorView,
            >(e@),
        },
{
    let entries = table.entries();
    let ghost names = table.names();
    let ghost all = values_of(table@, names);
    let mut out: Table<String> = Table::new();
    let mut i: usize = 0;
    assert(out.names() == names.take(0));
    assert(all.take(0) == Seq::<Seq<char>>::empty());
    while i < entries.len()
        invariant
            i <= entries@.len(),
            names == table.names(),
            names == names_of(entries@),
            names.no_duplicates(),
            forall|j: int|
                0 <= j < entries@.len() ==> table@.contains_key((#[trigger] entries@[j]).0@)
                    && table@[entries@[j].0@] == entries@[j].1@,
            all == values_of(table@, names),
            out.names() == names.take(i as int),
            forall|name: Seq<char>| #[trigger]
                out@.contains_key(name) <==> names.take(i as int).contains(name),
            forall|name: Seq<char>| #[trigger]
                out@.contains_key(name) ==> out@[name] == resolution(table@[name], secrets@)->Ok_0,
            resolve_texts(all.take(i as int), secrets@) is Ok,
        decreases entries@.len() - i,
    {
        let ghost name = entries@[i as int].0@;
        assert(all.take(i + 1).drop_last() == all.take(i as int));
        assert(names[i as int] == name);
        assert(all.take(i + 1).last() == entries@[i as int].1@);
        match resolve_ref(entries[i].1.as_str(), secrets) {
            Ok(found) => {
                proof {
                    if out@.contains_key(name) {
                        let j = choose|j: int| 0 <= j < i && names.take(i as int)[j] == name;
                        assert(names[j] == names[i as int]);
                    }
                    assert forall|n: Seq<char>| #[trigger]
                        names.take(i + 1).contains(n) <==> names.take(i as int).contains(n) || n
                            == name by {
                        assert(names.take(i + 1)[i as int] == name);
                        if names.take(i as int).contains(n) {
                            let j = choose|j: int| 0 <= j < i && names.take(i as int)[j] == n;
                            assert(names.take(i + 1)[j] == n);
                        }
                        let longer = names.take(i + 1);
                        if longer.contains(n) {
                            let j = choose|j: int| 0 <= j < longer.len() && longer[j] == n;
                            if j < i {
                                assert(names.take(i as int)[j] == n);
                            }
                        }
                    }
                    assert(names.take(i + 1) == names.take(i as int).push(name));
                }
                out.insert(entries[i].0.clone(), found);
            },
            Err(e) => {
                proof {
                    lemma_texts_stuck(all, secrets@, i + 1);
                }
                return Err(e);
            },
        }
        i = i + 1;
    }
    assert(all.take(i as int) == all);
    assert(names.take(i as int) == names);
    assert(out@ =~= resolved_values(table@, secrets@));
    Ok(out)
}

/// The same optional text again.
fn copy_text(o: &Option<String>) -> (r: Option<String>)
    ensures
        optional_text(r) == optional_text(*o),
{
    match o {
        Some(s) => Some(s.clone()),
        None => None,
    }
}

impl Backend {
    /// Resolves the references of the backend.
    fn resolve(&mut self, secrets: &SecretsSource) -> (r: Result<(), RefError>)
        ensures
            final(self)@ == resolve_backend(old(self)@, secrets@).0,
            match r {
                Ok(_) => resolve_backend(old(self)@, secrets@).1 is None,
                Err(e) => resolve_backend(old(self)@, secrets@).1 == Some(e@),
            },
    {
        if let Some(file) = self.credentials_file.take() {
            match resolve_ref(file.as_str(), secrets) {
                Ok(found) => {
                    self.credentials_file = Some(found);
                },
                Err(e) => {
                    return Err(e);
                },
            }
        }
        if let Some(key) = self.key.take() {
            match resolve_ref(key.as_str(), secrets) {
                Ok(found) => {
                    self.key = Some(found);
                },
                Err(e) => {
                    return Err(e);
                },
            }
        }
        Ok(())
    }
}

impl Backend {
    /// The backend with its details resolved.
    fn resolved_details(&self, secrets: &SecretsSource) -> (r: Result<Backend, RefError>)
        ensures
            match r {
                Ok(b) => resolve_details(self@, secrets@) == Ok::<BackendView, RefErrorView>(b@),
                Err(e) => resolve_details(self@, secrets@) == Err::<BackendView, RefErrorView>(e@),
            },
    {
        let name = match resolve_ref(self.name.as_str(), secrets) {
            Ok(name) => name,
            Err(e) => {
                return Err(e);
            },
        };
        let base_url = match resolve_ref(self.base_url.as_str(), secrets) {
            Ok(base_url) => base_url,
            Err(e) => {
                return Err(e);
            },
        };
        let model_map = match resolve_values(&self.model_map, secrets) {
            Ok(model_map) => model_map,
            Err(e) => {
                return Err(e);
            },
        };
        let allowed_path_prefixes = match &self.allowed_path_prefixes {
            None => None,
            Some(list) => match resolve_each(list, secrets) {
                Ok(found) => Some(found),
                Err(e) => {
                    return Err(e);
                },
            },
        };
        Ok(
            Backend {
                name,
                base_url,
                auth: self.auth,
                credentials_file: copy_text(&self.credentials_file),
                key: copy_text(&self.key),
                model_map,
                allowed_path_prefixes,
            },
        )
    }
}

/// Resolves the details of each backend.
fn resolve_each_backend(backends: &Vec<Backend>, secrets: &SecretsSource) -> (r: Result<
    Vec<Backend>,
    RefError,
>)
    ensures
        match r {
            Ok(found) => resolve_all_details(backend_views(backends@), secrets@) == Ok::<
                Seq<BackendView>,
                RefErrorView,
            >(backend_views(found@)),
            Err(e) => resolve_all_details(backend_views(backends@), secrets@) == Err::<
                Seq<BackendView>,
                RefErrorView,
            >(e@),
        },
{
    let ghost all = backend_views(backends@);
    let mut out: Vec<Backend> = Vec::new();
    let mut i: usize = 0;
    assert(backend_views(out@) == all.take(0));
    while i < backends.len()
        invariant
            i <= backends@.len(),
            all == backend_views(backends@),
            resolve_all_details(all.take(i as int), secrets@) == Ok::<
                Seq<BackendView>,
                RefErrorView,
            >(backend_views(out@)),
        decreases backends@.len() - i,
    {
        assert(all.take(i + 1).drop_last() == all.take(i as int));
        assert(all.take(i + 1).last() == backends@[i as int]@);
        match backends[i].resolved_details(secrets) {
            Ok(b) => {
                let ghost done = backend_views(out@);
                out.push(b);
                assert(backend_views(out@) == done.push(b@));
            },
            Err(e) => {
                proof {
                    lemma_details_stuck(all, secrets@, i + 1);
                }
                return Err(e);
            },
        }
        i = i + 1;
    }
    assert(all.take(i as int) == all);
    Ok(out)
}

/// Resolves the backend of each rule.
fn resolve_each_rule(rules: &Vec<FaultRule>, secrets: &SecretsSource) -> (r: Result<
    Vec<FaultRule>,
    RefError,
>)
    ensures
        match r {
            Ok(found) => resolve_rules(fault_views(rules@), secrets@) == Ok::<
                Seq<FaultView>,
                RefErrorView,
            >(fault_views(found@)),
            Err(e) => resolve_rules(fault_views(rules@), secrets@) == Err::<
                Seq<FaultView>,
                RefErrorView,
            >(e@),
        },
{
    let ghost all = rule_backends(fault_views(rules@));
    let mut out: Vec<FaultRule> = Vec::new();
    let mut i: usize = 0;
    assert(all.take(0) == rule_backends(fault_views(out@)));
    while i < rules.len()
        invariant
            i <= rules@.len(),
            out@.len() == i,
            all == rule_backends(fault_views(rules@)),
            resolve_texts(all.take(i as int), secrets@) == Ok::<Seq<Seq<char>>, RefErrorView>(
                rule_backends(fault_views(out@)),
            ),
            forall|j: int|
                0 <= j < i ==> (#[trigger] out@[j]).status == rules@[j].status && out@[j].rate
                    == rules@[j].rate,
        decreases rules@.len() - i,
    {
        let rule = &rules[i];
        assert(all.take(i + 1).drop_last() == all.take(i as int));
        assert(all.take(i + 1).last() == rule.backend@);
        match resolve_ref(rule.backend.as_str(), secrets) {
            Ok(backend) => {
                let ghost done = rule_backends(fault_views(out@));
                out.push(FaultRule { backend, status: rule.status, rate: rule.rate });
                assert(rule_backends(fault_views(out@)) == done.push(backend@));
            },
            Err(e) => {
                proof {
                    lemma_texts_stuck(all, secrets@, i + 1);
                }
                return Err(e);
            },
        }
        i = i + 1;
    }
    assert(all.take(i as int) == all);
    proof {
        let names = resolve_texts(all, secrets@)->Ok_0;
        assert(fault_views(out@) =~= Seq::new(
            rules@.len(),
            |j: int| FaultView { backend: names[j], ..fault_views(rules@)[j] },
        )) by {
            assert forall|j: int| 0 <= j < rules@.len() implies #[trigger] fault_views(out@)[j] == (
            FaultView { backend: names[j], ..fault_views(rules@)[j] }) by {
                assert(names[j] == out@[j].backend@);
            }
        }
    }
    Ok(out)
}

impl Config {
    /// The configuration with everything resolved but credentials files and keys.
    fn resolved_rest(&self, secrets: &SecretsSource) -> (r: Result<Config, RefError>)
        ensures
            match r {
                Ok(c) => resolve_rest(self@, secrets@) == Ok::<ConfigView, RefErrorView>(c@),
                Err(e) => resolve_rest(self@, secrets@) == Err::<ConfigView, RefErrorView>(e@),
            },
    {
        let listen = match resolve_ref(self.proxy.listen.as_str(), secrets) {
            Ok(listen) => listen,
            Err(e) => {
                return Err(e);
            },
        };
        let backends = match resolve_each_backend(&self.backends, secrets) {
            Ok(backends) => backends,
            Err(e) => {
                return Err(e);
            },
        };
        let order = match resolve_each(&self.failover.order, secrets) {
            Ok(order) => order,
            Err(e) => {
                return Err(e);
            },
        };
        let rules = match resolve_each_rule(&self.fault_injection.rules, secrets) {
            Ok(rules) => rules,
            Err(e) => {
                return Err(e);
            },
        };
        let source = match &self.secrets {
            Some(s) => Some(SecretsConfig { source: s.source.clone() }),
            None => None,
        };
        Ok(
            Config {
                proxy: ProxyConfig { listen },
                backends,
                failover: FailoverConfig { order, triggers: self.failover.triggers.clone() },
                fault_injection: FaultInjectionConfig {
                    enabled: self.fault_injection.enabled,
                    rules,
                },
                secrets: source,
            },
        )
    }
}

impl Config {
    /// The path of the secrets source, with a leading `~` expanded.
    pub fn secrets_source_path(&self) -> (r: Option<String>)
        ensures
            r is Some <==> self@.secrets_source is Some,
            r matches Some(path) ==> tilde_expansion(self@.secrets_source->0, path@),
    {
        match &self.secrets {
            Some(s) => Some(expand_path(s.source.as_str())),
            None => None,
        }
    }

    /// The path of the secrets source, with a leading `~` expanded to `home`.
    pub fn secrets_source_path_with(&self, home: Option<&str>) -> (r: Option<String>)
        ensures
            r is Some <==> self@.secrets_source is Some,
            r matches Some(path) ==> expands_to(
                self@.secrets_source->0,
                optional_str(home),
                path@,
            ),
            r matches Some(path) ==> !before_backslash(self@.secrets_source->0) ==> path@
                == expanded(self@.secrets_source->0, optional_str(home)),
    {
        match &self.secrets {
            Some(s) => Some(expand_path_with(s.source.as_str(), home)),
            None => None,
        }
    }

    /// Resolves the credentials file and the key of every backend, up to the first that does not
    /// resolve.
    fn resolve_secrets(&mut self, secrets: &SecretsSource) -> (r: Result<(), RefError>)
        ensures
            final(self)@ == (ConfigView {
                backends: resolve_backends(old(self)@.backends, secrets@).0,
                ..old(self)@
            }),
            match r {
                Ok(_) => resolve_backends(old(self)@.backends, secrets@).1 is None,
                Err(e) => resolve_backends(old(self)@.backends, secrets@).1 == Some(e@),
            },
    {
        let ghost before = self@.backends;
        let mut i: usize = 0;
        while i < self.backends.len()
            invariant
                i <= self.backends@.len(),
                before == old(self)@.backends,
                self@.backends.len() == before.len(),
                self@ == (ConfigView { backends: self@.backends, ..old(self)@ }),
                resolve_backends(before.take(i as int), secrets@) == (
                    self@.backends.take(i as int),
                    None::<RefErrorView>,
                ),
                self@.backends.skip(i as int) == before.skip(i as int),
            decreases self.backends@.len() - i,
        {
            assert(before.take(i + 1).drop_last() == before.take(i as int));
            assert(before[i as int] == before.skip(i as int)[0]);
            assert(self@.backends[i as int] == self@.backends.skip(i as int)[0]);
            let ghost views = self@.backends;
            let ghost next = resolve_backend(before[i as int], secrets@).0;
            let outcome = self.backends[i].resolve(secrets);
            assert(self@.backends == views.update(i as int, next));
            assert(self@.backends.take(i + 1) == views.take(i as int).push(next));
            assert(self@.backends.skip(i + 1) == views.skip(i as int).skip(1));
            assert(before.skip(i + 1) == before.skip(i as int).skip(1));
            match outcome {
                Ok(_) => {
                },
                Err(e) => {
                    proof {
                        lemma_stops(before, secrets@, i + 1);
                        assert(self@.backends == self@.backends.take(i + 1)
                            + self@.backends.skip(i + 1));
                    }
                    return Err(e);
                },
            }
            i = i + 1;
        }
        assert(before.take(i as int) == before);
        assert(self@.backends.take(i as int) == self@.backends);
        Ok(())
    }

    /// Resolves every reference: credentials files and keys, up to the first that does not resolve,
    /// and then all other texts, where all of them resolve.
    pub fn resolve_refs(&mut self, secrets: &SecretsSource) -> (r: Result<(), RefError>)
        ensures
            final(self)@ == resolve_config(old(self)@, secrets@).0,
            match r {
                Ok(_) => resolve_config(old(self)@, secrets@).1 is None,
                Err(e) => resolve_config(old(self)@, secrets@).1 == Some(e@),
            },
    {
        match self.resolve_secrets(secrets) {
            Ok(_) => {},
            Err(e) => {
                return Err(e);
            },
        }
        match self.resolved_rest(secrets) {
            Ok(config) => {
                *self = config;
                Ok(())
            },
            Err(e) => Err(e),
        }
    }

    /// The first backend with the name `name`.
    pub fn find(&self, name: &str) -> (r: Option<&Backend>)
        ensures
            match r {
                Some(b) => find_backend(self@.backends, name@) == Some(b@),
                None => find_backend(self@.backends, name@) is None,
            },
    {
        let ghost views = self@.backends;
        let mut i: usize = 0;
        while i < self.backends.len()
            invariant
                i <= self.backends@.len(),
                views == backend_views(self.backends@),
                find_backend(views.take(i as int), name@) is None,
            decreases self.backends@.len() - i,
        {
            assert(views.take(i + 1).drop_last() == views.take(i as int));
            if same(self.backends[i].name.as_str(), name) {
                proof {
                    lemma_found(views, name@, i + 1);
                }
                return Some(&self.backends[i]);
            }
            i = i + 1;
        }
        assert(views.take(i as int) == views);
        None
    }
}

impl Config {
    /// The first backend whose name stands for `name`.
    fn find_unresolved(&self, name: &str, secrets: &SecretsSource) -> (r: Option<&Backend>)
        ensures
            match r {
                Some(b) => find_declared(self@.backends, name@, secrets@) == Some(b@),
                None => find_declared(self@.backends, name@, secrets@) is None,
            },
    {
        let ghost views = self@.backends;
        let mut i: usize = 0;
        while i < self.backends.len()
            invariant
                i <= self.backends@.len(),
                views == backend_views(self.backends@),
                find_declared(views.take(i as int), name@, secrets@) is None,
            decreases self.backends@.len() - i,
        {
            assert(views.take(i + 1).drop_last() == views.take(i as int));
            if let Ok(found) = resolve_ref(self.backends[i].name.as_str(), secrets) {
                if same(found.as_str(), name) {
                    proof {
                        lemma_declared(views, name@, secrets@, i + 1);
                    }
                    return Some(&self.backends[i]);
                }
            }
            i = i + 1;
        }
        assert(views.take(i as int) == views);
        None
    }
}

/// A backend that is found among the first ones is found among all.
proof fn lemma_declared(
    backends: Seq<BackendView>,
    name: Seq<char>,
    secrets: SecretsView,
    n: int,
)
    requires
        0 <= n <= backends.len(),
        find_declared(backends.take(n), name, secrets) is Some,
    ensures
        find_declared(backends, name, secrets) == find_declared(backends.take(n), name, secrets),
    decreases backends.len(),
{
    if n < backends.len() {
        assert(backends.drop_last().take(n) == backends.take(n));
        lemma_declared(backends.drop_last(), name, secrets, n);
    } else {
        assert(backends.take(n) == backends);
    }
}

/// Nothing after the first backend that does not resolve is touched.
proof fn lemma_stops(backends: Seq<BackendView>, secrets: SecretsView, n: int)
    requires
        0 <= n <= backends.len(),
        resolve_backends(backends.take(n), secrets).1 is Some,
    ensures
        resolve_backends(backends, secrets) == (
            resolve_backends(backends.take(n), secrets).0 + backends.skip(n),
            resolve_backends(backends.take(n), secrets).1,
        ),
    decreases backends.len(),
{
    if n < backends.len() {
        let rest = backends.drop_last();
        assert(rest.take(n) == backends.take(n));
        lemma_stops(rest, secrets, n);
        assert((resolve_backends(backends.take(n), secrets).0 + rest.skip(n)).push(backends.last())
            == resolve_backends(backends.take(n), secrets).0 + backends.skip(n));
    } else {
        assert(backends.take(n) == backends);
        assert(resolve_backends(backends, secrets).0 + backends.skip(n) == resolve_backends(
            backends,
            secrets,
        ).0);
    }
}

/// A backend that is found among the first ones is found among all.
proof fn lemma_found(backends: Seq<BackendView>, name: Seq<char>, n: int)
    requires
        0 <= n <= backends.len(),
        find_backend(backends.take(n), name) is Some,
    ensures
        find_backend(backends, name) == find_backend(backends.take(n), name),
    decreases backends.len(),
{
    if n < backends.len() {
        assert(backends.drop_last().take(n) == backends.take(n));
        lemma_found(backends.drop_last(), name, n);
    } else {
        assert(backends.take(n) == backends);
    }
}

/// Why the configuration could not be read.
#[derive(Debug)]
pub enum LoadError {
    /// The file could not be read.
    Reading { path: String },
    /// The file is not a configuration in TOML.
    Parsing,
}

/// Why a backend's key could not be resolved again.
#[derive(Debug)]
pub enum KeyError {
    /// The configuration in force has no such backend.
    NotFound { backend: String },
    /// The configuration on disk could not be read.
    Load(LoadError),
    /// The configuration on disk has no such backend.
    NotOnDisk { backend: String },
    /// The backend on disk has no key.
    NoKey { backend: String },
    /// The key on disk is a reference that does not resolve.
    Reference(RefError),
}

/// The contents of a `LoadError`.
pub enum LoadErrorView {
    Reading { path: Seq<char> },
    Parsing,
}

/// The contents of a `KeyError`.
pub enum KeyErrorView {
    NotFound { backend: Seq<char> },
    Load(LoadErrorView),
    NotOnDisk { backend: Seq<char> },
    NoKey { backend: Seq<char> },
    Reference(RefErrorView),
}

impl View for LoadError {
    type V = LoadErrorView;

    open spec fn view(&self) -> LoadErrorView {
        match self {
            LoadError::Reading { path } => LoadErrorView::Reading { path: path@ },
            LoadError::Parsing => LoadErrorView::Parsing,
        }
    }
}

impl View for KeyError {
    type V = KeyErrorView;

    open spec fn view(&self) -> KeyErrorView {
        match self {
            KeyError::NotFound { backend } => KeyErrorView::NotFound { backend: backend@ },
            KeyError::Load(e) => KeyErrorView::Load(e@),
            KeyError::NotOnDisk { backend } => KeyErrorView::NotOnDisk { backend: backend@ },
            KeyError::NoKey { backend } => KeyErrorView::NoKey { backend: backend@ },
            KeyError::Reference(e) => KeyErrorView::Reference(e@),
        }
    }
}

impl LoadErrorView {
    /// The text of the error.
    pub open spec fn message(self) -> Seq<char> {
        match self {
            LoadErrorView::Reading { path } => "reading config from "@ + path,
            LoadErrorView::Parsing => "parsing config TOML"@,
        }
    }
}

impl KeyErrorView {
    /// The text of the error.
    pub open spec fn message(self) -> Seq<char> {
        match self {
            KeyErrorView::NotFound { backend } => "backend '"@ + backend + "' not found"@,
            KeyErrorView::Load(e) => e.message(),
            KeyErrorView::NotOnDisk { backend } => "backend '"@ + backend
                + "' not in on-disk config"@,
            KeyErrorView::NoKey { backend } => "backend '"@ + backend + "' has no key field"@,
            KeyErrorView::Reference(e) => e.message(),
        }
    }
}

impl LoadError {
    /// The text of the error.
    pub fn message(&self) -> (r: String)
        ensures
            r@ == self@.message(),
    {
        match self {
            LoadError::Reading { path } => "reading config from ".to_owned().concat(path.as_str()),
            LoadError::Parsing => "parsing config TOML".to_owned(),
        }
    }

    /// The same error again.
    fn copy(&self) -> (r: LoadError)
        ensures
            r@ == self@,
    {
        match self {
            LoadError::Reading { path } => LoadError::Reading { path: path.clone() },
            LoadError::Parsing => LoadError::Parsing,
        }
    }
}

impl KeyError {
    /// The text of the error.
    pub fn message(&self) -> (r: String)
        ensures
            r@ == self@.message(),
    {
        match self {
            KeyError::NotFound { backend } => {
                "backend '".to_owned().concat(backend.as_str()).concat("' not found")
            },
            KeyError::Load(e) => e.message(),
            KeyError::NotOnDisk { backend } => {
                "backend '".to_owned().concat(backend.as_str()).concat("' not in on-disk config")
            },
            KeyError::NoKey { backend } => {
                "backend '".to_owned().concat(backend.as_str()).concat("' has no key field")
            },
            KeyError::Reference(e) => e.message(),
        }
    }
}

/// The key of the backend `name`, resolved from the configuration on disk.
pub open spec fn key_resolution(
    current: ConfigView,
    name: Seq<char>,
    on_disk: Result<ConfigView, LoadErrorView>,
    secrets: SecretsView,
) -> Result<Seq<char>, KeyErrorView> {
    if find_backend(current.backends, name) is None {
        Err(KeyErrorView::NotFound { backend: name })
    } else {
        match on_disk {
            Err(e) => Err(KeyErrorView::Load(e)),
            Ok(disk) => match find_declared(disk.backends, name, secrets) {
                None => Err(KeyErrorView::NotOnDisk { backend: name }),
                Some(b) => match b.key {
                    None => Err(KeyErrorView::NoKey { backend: name }),
                    Some(declared) => match resolution(declared, secrets) {
                        Ok(key) => Ok(key),
                        Err(e) => Err(KeyErrorView::Reference(e)),
                    },
                },
            },
        }
    }
}

/// The contents of a configuration that was read, or of the error.
pub open spec fn load_view(read: Result<Config, LoadError>) -> Result<ConfigView, LoadErrorView> {
    match read {
        Ok(config) => Ok(config@),
        Err(e) => Err(e@),
    }
}

impl Config {
    /// The configuration in force after `parsed` was read from disk: its references resolved.
    pub fn load(parsed: Config, secrets: &SecretsSource) -> (r: Result<Config, RefError>)
        ensures
            match r {
                Ok(config) => resolve_config(parsed@, secrets@) == (config@, None::<RefErrorView>),
                Err(e) => resolve_config(parsed@, secrets@).1 == Some(e@),
            },
    {
        let mut config = parsed;
        match config.resolve_refs(secrets) {
            Ok(_) => Ok(config),
            Err(e) => Err(e),
        }
    }

    /// Resolves the key of one backend again, so that a key can be rotated while the proxy runs.
    /// Resolving a configuration puts the key in place of the reference to it, so the reference is
    /// taken from the configuration as it now is on disk; `secrets` is the source that
    /// configuration names.
    pub fn resolve_backend_key(
        &self,
        backend_name: &str,
        on_disk: &Result<Config, LoadError>,
        secrets: &SecretsSource,
    ) -> (r: Result<String, KeyError>)
        ensures
            match r {
                Ok(key) => key_resolution(self@, backend_name@, load_view(*on_disk), secrets@)
                    == Ok::<Seq<char>, KeyErrorView>(key@),
                Err(e) => key_resolution(self@, backend_name@, load_view(*on_disk), secrets@)
                    == Err::<Seq<char>, KeyErrorView>(e@),
            },
    {
        if self.find(backend_name).is_none() {
            return Err(KeyError::NotFound { backend: backend_name.to_owned() });
        }
        let disk = match on_disk {
            Ok(config) => config,
            Err(e) => {
                return Err(KeyError::Load(e.copy()));
            },
        };
        match disk.find_unresolved(backend_name, secrets) {
            None => Err(KeyError::NotOnDisk { backend: backend_name.to_owned() }),
            Some(b) => match &b.key {
                None => Err(KeyError::NoKey { backend: backend_name.to_owned() }),
                Some(declared) => match resolve_ref(declared.as_str(), secrets) {
                    Ok(key) => Ok(key),
                    Err(e) => Err(KeyError::Reference(e)),
                },
            },
        }
    }
}

/// Credentials files and keys resolve exactly where those of every backend do, and then each backend
/// is resolved by itself.
pub proof fn law_backends_resolve_one_by_one(backends: Seq<BackendView>, secrets: SecretsView)
    ensures
        resolve_backends(backends, secrets).1 is None <==> forall|i: int|
            0 <= i < backends.len() ==> resolve_backend(#[trigger] backends[i], secrets).1 is None,
        resolve_backends(backends, secrets).0.len() == backends.len(),
        resolve_backends(backends, secrets).1 is None ==> forall|i: int|
            0 <= i < backends.len() ==> #[trigger] resolve_backends(backends, secrets).0[i]
                == resolve_backend(backends[i], secrets).0,
    decreases backends.len(),
{
    if backends.len() > 0 {
        let rest = backends.drop_last();
        law_backends_resolve_one_by_one(rest, secrets);
        assert forall|i: int| 0 <= i < rest.len() implies rest[i] == #[trigger] backends[i] by {
        }
        assert(backends[backends.len() - 1] == backends.last());
        if resolve_backends(rest, secrets).1 is Some {
            let i = choose|i: int|
                0 <= i < rest.len() && resolve_backend(#[trigger] rest[i], secrets).1 is Some;
            assert(resolve_backend(backends[i], secrets).1 is Some);
        }
    }
}

/// The details of backends resolve exactly where those of each do, and then each backend is resolved
/// by itself.
pub proof fn law_details_resolve_one_by_one(backends: Seq<BackendView>, secrets: SecretsView)
    ensures
        resolve_all_details(backends, secrets) is Ok <==> forall|i: int|
            0 <= i < backends.len() ==> resolve_details(#[trigger] backends[i], secrets) is Ok,
        resolve_all_details(backends, secrets) matches Ok(found) ==> found.len() == backends.len()
            && forall|i: int|
            0 <= i < backends.len() ==> resolve_details(backends[i], secrets) == Ok::<
                BackendView,
                RefErrorView,
            >(#[trigger] found[i]),
    decreases backends.len(),
{
    if backends.len() > 0 {
        let rest = backends.drop_last();
        law_details_resolve_one_by_one(rest, secrets);
        assert forall|i: int| 0 <= i < rest.len() implies rest[i] == #[trigger] backends[i] by {
        }
        assert(backends[backends.len() - 1] == backends.last());
        if resolve_all_details(rest, secrets) is Err {
            let i = choose|i: int|
                0 <= i < rest.len() && resolve_details(#[trigger] rest[i], secrets) is Err;
            assert(resolve_details(backends[i], secrets) is Err);
        }
    }
}

/// Whether `r` is what each of `list` stands for.
pub open spec fn each_resolves_to(
    list: Seq<Seq<char>>,
    secrets: SecretsView,
    r: Seq<Seq<char>>,
) -> bool {
    &&& r.len() == list.len()
    &&& forall|i: int|
        0 <= i < list.len() ==> resolution(list[i], secrets) == Ok::<Seq<char>, RefErrorView>(
            #[trigger] r[i],
        )
}

/// Whether `r` is what an optional text stands for.
pub open spec fn field_resolves_to(
    value: Option<Seq<char>>,
    secrets: SecretsView,
    r: Option<Seq<char>>,
) -> bool {
    match (value, r) {
        (None, None) => true,
        (Some(text), Some(found)) => resolution(text, secrets) == Ok::<Seq<char>, RefErrorView>(
            found,
        ),
        _ => false,
    }
}

/// Whether `r` is `b` with what each of its texts stands for.
pub open spec fn backend_resolves_to(b: BackendView, secrets: SecretsView, r: BackendView) -> bool {
    &&& resolution(b.name, secrets) == Ok::<Seq<char>, RefErrorView>(r.name)
    &&& resolution(b.base_url, secrets) == Ok::<Seq<char>, RefErrorView>(r.base_url)
    &&& r.auth == b.auth
    &&& field_resolves_to(b.credentials_file, secrets, r.credentials_file)
    &&& field_resolves_to(b.key, secrets, r.key)
    &&& r.model_names == b.model_names
    &&& r.model_map.dom() == b.model_map.dom()
    &&& forall|name: Seq<char>| #[trigger]
        b.model_names.contains(name) && b.model_map.contains_key(name) ==> resolution(
            b.model_map[name],
            secrets,
        ) == Ok::<Seq<char>, RefErrorView>(r.model_map[name])
    &&& match (b.allowed_path_prefixes, r.allowed_path_prefixes) {
        (None, None) => true,
        (Some(list), Some(found)) => each_resolves_to(list, secrets, found),
        _ => false,
    }
}

/// Whether `r` is `rules` with what the name of each backend stands for.
pub open spec fn rules_resolve_to(
    rules: Seq<FaultView>,
    secrets: SecretsView,
    r: Seq<FaultView>,
) -> bool {
    &&& r.len() == rules.len()
    &&& forall|i: int|
        0 <= i < rules.len() ==> {
            &&& resolution((#[trigger] rules[i]).backend, secrets) == Ok::<Seq<char>, RefErrorView>(
                r[i].backend,
            )
            &&& r[i].status == rules[i].status
            &&& r[i].rate == rules[i].rate
        }
}

/// In a configuration that was loaded, every text is what it stood for on disk: the address to
/// listen on, all texts of each backend, the failover order and the backends of the fault rules.
/// Nothing else changes.
pub proof fn law_every_text_is_resolved(c: ConfigView, secrets: SecretsView)
    requires
        resolve_config(c, secrets).1 is None,
    ensures
        ({
            let r = resolve_config(c, secrets).0;
            &&& resolution(c.listen, secrets) == Ok::<Seq<char>, RefErrorView>(r.listen)
            &&& r.backends.len() == c.backends.len()
            &&& forall|i: int|
                0 <= i < c.backends.len() ==> backend_resolves_to(
                    #[trigger] c.backends[i],
                    secrets,
                    r.backends[i],
                )
            &&& each_resolves_to(c.order, secrets, r.order)
            &&& rules_resolve_to(c.fault_injection.rules, secrets, r.fault_injection.rules)
            &&& r.triggers == c.triggers
            &&& r.fault_injection.enabled == c.fault_injection.enabled
            &&& r.secrets_source == c.secrets_source
        }),
{
    let r = resolve_config(c, secrets).0;
    let keyed = resolve_backends(c.backends, secrets).0;
    law_backends_resolve_one_by_one(c.backends, secrets);
    law_details_resolve_one_by_one(keyed, secrets);
    law_lists_resolve_one_by_one(c.order, secrets);
    law_lists_resolve_one_by_one(rule_backends(c.fault_injection.rules), secrets);
    assert forall|i: int| 0 <= i < c.fault_injection.rules.len() implies resolution(
        (#[trigger] c.fault_injection.rules[i]).backend,
        secrets,
    ) == Ok::<Seq<char>, RefErrorView>(r.fault_injection.rules[i].backend) by {
        assert(rule_backends(c.fault_injection.rules)[i] == c.fault_injection.rules[i].backend);
    }
    assert forall|i: int| 0 <= i < c.backends.len() implies backend_resolves_to(
        #[trigger] c.backends[i],
        secrets,
        r.backends[i],
    ) by {
        let b = c.backends[i];
        assert(resolve_backend(b, secrets).1 is None);
        assert(keyed[i] == resolve_backend(b, secrets).0);
        assert(resolve_details(keyed[i], secrets) == Ok::<BackendView, RefErrorView>(
            r.backends[i],
        ));
        let ids = values_of(b.model_map, b.model_names);
        law_lists_resolve_one_by_one(ids, secrets);
        assert(r.backends[i].model_map.dom() =~= b.model_map.dom());
        assert forall|name: Seq<char>| #[trigger]
            b.model_names.contains(name) && b.model_map.contains_key(name) implies resolution(
            b.model_map[name],
            secrets,
        ) == Ok::<Seq<char>, RefErrorView>(r.backends[i].model_map[name]) by {
            let j = choose|j: int| 0 <= j < b.model_names.len() && b.model_names[j] == name;
            assert(ids[j] == b.model_map[name]);
        }
        if let Some(list) = b.allowed_path_prefixes {
            law_lists_resolve_one_by_one(list, secrets);
        }
    }
}

/// Whether each text of a list resolves.
pub open spec fn all_resolve(list: Seq<Seq<char>>, secrets: SecretsView) -> bool {
    forall|i: int| 0 <= i < list.len() ==> resolution(#[trigger] list[i], secrets) is Ok
}

/// Whether each text of a backend resolves.
pub open spec fn backend_resolves(b: BackendView, secrets: SecretsView) -> bool {
    &&& resolution(b.name, secrets) is Ok
    &&& resolution(b.base_url, secrets) is Ok
    &&& b.credentials_file matches Some(f) ==> resolution(f, secrets) is Ok
    &&& b.key matches Some(k) ==> resolution(k, secrets) is Ok
    &&& forall|i: int|
        0 <= i < b.model_names.len() ==> resolution(
            b.model_map[#[trigger] b.model_names[i]],
            secrets,
        ) is Ok
    &&& b.allowed_path_prefixes matches Some(list) ==> all_resolve(list, secrets)
}

/// A configuration can be loaded exactly where each of its texts resolves.
pub proof fn law_loading_needs_every_text(c: ConfigView, secrets: SecretsView)
    ensures
        resolve_config(c, secrets).1 is None <==> {
            &&& resolution(c.listen, secrets) is Ok
            &&& forall|i: int|
                0 <= i < c.backends.len() ==> backend_resolves(#[trigger] c.backends[i], secrets)
            &&& all_resolve(c.order, secrets)
            &&& forall|i: int|
                0 <= i < c.fault_injection.rules.len() ==> resolution(
                    (#[trigger] c.fault_injection.rules[i]).backend,
                    secrets,
                ) is Ok
        },
{
    let keyed = resolve_backends(c.backends, secrets).0;
    law_backends_resolve_one_by_one(c.backends, secrets);
    law_details_resolve_one_by_one(keyed, secrets);
    law_lists_resolve_one_by_one(c.order, secrets);
    let named = rule_backends(c.fault_injection.rules);
    law_lists_resolve_one_by_one(named, secrets);
    if forall|i: int|
        0 <= i < c.fault_injection.rules.len() ==> resolution(
            (#[trigger] c.fault_injection.rules[i]).backend,
            secrets,
        ) is Ok {
        assert forall|i: int| 0 <= i < named.len() implies resolution(
            #[trigger] named[i],
            secrets,
        ) is Ok by {
            assert(named[i] == c.fault_injection.rules[i].backend);
        }
    }
    if forall|i: int| 0 <= i < named.len() ==> resolution(#[trigger] named[i], secrets) is Ok {
        assert forall|i: int| 0 <= i < c.fault_injection.rules.len() implies resolution(
            (#[trigger] c.fault_injection.rules[i]).backend,
            secrets,
        ) is Ok by {
            assert(named[i] == c.fault_injection.rules[i].backend);
        }
    }
    assert forall|i: int| 0 <= i < c.backends.len() implies (backend_resolves(
        #[trigger] c.backends[i],
        secrets,
    ) <==> resolve_backend(c.backends[i], secrets).1 is None && resolve_details(
        resolve_backend(c.backends[i], secrets).0,
        secrets,
    ) is Ok) by {
        let b = c.backends[i];
        let ids = values_of(b.model_map, b.model_names);
        law_lists_resolve_one_by_one(ids, secrets);
        assert forall|j: int| 0 <= j < b.model_names.len() implies b.model_map[
        #[trigger] b.model_names[j]] == ids[j] by {
        }
        assert((forall|j: int| 0 <= j < ids.len() ==> resolution(#[trigger] ids[j], secrets) is Ok)
            <==> forall|j: int|
            0 <= j < b.model_names.len() ==> resolution(
                b.model_map[#[trigger] b.model_names[j]],
                secrets,
            ) is Ok) by {
            if forall|j: int|
                0 <= j < b.model_names.len() ==> resolution(
                    b.model_map[#[trigger] b.model_names[j]],
                    secrets,
                ) is Ok {
                assert forall|j: int| 0 <= j < ids.len() implies resolution(
                    #[trigger] ids[j],
                    secrets,
                ) is Ok by {
                    assert(ids[j] == b.model_map[b.model_names[j]]);
                }
            }
        }
        if let Some(list) = b.allowed_path_prefixes {
            law_lists_resolve_one_by_one(list, secrets);
        }
    }
    if resolve_backends(c.backends, secrets).1 is None {
        assert forall|i: int| 0 <= i < keyed.len() implies (resolve_details(
            #[trigger] keyed[i],
            secrets,
        ) is Ok <==> backend_resolves(c.backends[i], secrets)) by {
            assert(resolve_backend(c.backends[i], secrets).1 is None);
            assert(keyed[i] == resolve_backend(c.backends[i], secrets).0);
        }
        if resolve_all_details(keyed, secrets) is Ok {
            assert forall|i: int| 0 <= i < c.backends.len() implies backend_resolves(
                #[trigger] c.backends[i],
                secrets,
            ) by {
                assert(resolve_details(keyed[i], secrets) is Ok);
            }
        } else {
            let i = choose|i: int|
                0 <= i < keyed.len() && resolve_details(#[trigger] keyed[i], secrets) is Err;
            assert(!backend_resolves(c.backends[i], secrets));
        }
    } else {
        let i = choose|i: int|
            0 <= i < c.backends.len() && resolve_backend(
                #[trigger] c.backends[i],
                secrets,
            ).1 is Some;
        assert(!backend_resolves(c.backends[i], secrets));
    }
}

/// Whether no text of a list is a reference.
pub open spec fn all_plain(list: Seq<Seq<char>>) -> bool {
    forall|i: int| 0 <= i < list.len() ==> !is_ref(#[trigger] list[i])
}

/// Whether no text of a backend is a reference.
pub open spec fn plain_backend(b: BackendView) -> bool {
    &&& !is_ref(b.name)
    &&& !is_ref(b.base_url)
    &&& b.credentials_file matches Some(f) ==> !is_ref(f)
    &&& b.key matches Some(k) ==> !is_ref(k)
    &&& all_plain(values_of(b.model_map, b.model_names))
    &&& forall|name: Seq<char>| #[trigger]
        b.model_map.contains_key(name) ==> !is_ref(b.model_map[name])
    &&& b.allowed_path_prefixes matches Some(list) ==> all_plain(list)
}

/// A list without references resolves to itself.
proof fn lemma_plain_list(list: Seq<Seq<char>>, secrets: SecretsView)
    requires
        all_plain(list),
    ensures
        resolve_texts(list, secrets) == Ok::<Seq<Seq<char>>, RefErrorView>(list),
{
    law_lists_resolve_one_by_one(list, secrets);
    assert forall|i: int| 0 <= i < list.len() implies resolution(#[trigger] list[i], secrets)
        == Ok::<Seq<char>, RefErrorView>(list[i]) by {
    }
    assert(resolve_texts(list, secrets)->Ok_0 =~= list);
}

/// Backends without references resolve to themselves.
proof fn lemma_plain_backends(backends: Seq<BackendView>, secrets: SecretsView)
    requires
        forall|i: int| 0 <= i < backends.len() ==> plain_backend(#[trigger] backends[i]),
    ensures
        resolve_backends(backends, secrets) == (backends, None::<RefErrorView>),
        resolve_all_details(backends, secrets) == Ok::<Seq<BackendView>, RefErrorView>(backends),
    decreases backends.len(),
{
    if backends.len() > 0 {
        let rest = backends.drop_last();
        assert forall|i: int| 0 <= i < rest.len() implies plain_backend(#[trigger] rest[i]) by {
            assert(rest[i] == backends[i]);
        }
        lemma_plain_backends(rest, secrets);
        let b = backends[backends.len() - 1];
        assert(plain_backend(b));
        assert(resolve_backend(b, secrets).0 == b);
        lemma_plain_list(values_of(b.model_map, b.model_names), secrets);
        if let Some(list) = b.allowed_path_prefixes {
            lemma_plain_list(list, secrets);
        }
        assert(resolved_values(b.model_map, secrets) =~= b.model_map);
        assert(resolve_details(b, secrets) == Ok::<BackendView, RefErrorView>(b));
        assert(rest.push(b) == backends);
    }
}

/// Resolution changes nothing but the references themselves: a configuration without any stays as it
/// is, whatever the secrets source.
pub proof fn law_nothing_to_resolve(c: ConfigView, secrets: SecretsView)
    requires
        !is_ref(c.listen),
        forall|i: int| 0 <= i < c.backends.len() ==> plain_backend(#[trigger] c.backends[i]),
        all_plain(c.order),
        all_plain(rule_backends(c.fault_injection.rules)),
    ensures
        resolve_config(c, secrets) == (c, None::<RefErrorView>),
{
    lemma_plain_backends(c.backends, secrets);
    lemma_plain_list(c.order, secrets);
    lemma_plain_list(rule_backends(c.fault_injection.rules), secrets);
    assert(resolve_rules(c.fault_injection.rules, secrets)->Ok_0 =~= c.fault_injection.rules);
}

/// Looking a backend up by its resolved name, before and after resolution, finds the same one.
proof fn lemma_same_backend(
    declared: Seq<BackendView>,
    resolved: Seq<BackendView>,
    secrets: SecretsView,
    name: Seq<char>,
)
    requires
        declared.len() == resolved.len(),
        forall|i: int|
            0 <= i < declared.len() ==> backend_resolves_to(
                #[trigger] declared[i],
                secrets,
                resolved[i],
            ),
    ensures
        match find_backend(resolved, name) {
            Some(r) => find_declared(declared, name, secrets) matches Some(d)
                && backend_resolves_to(d, secrets, r),
            None => find_declared(declared, name, secrets) is None,
        },
    decreases declared.len(),
{
    if declared.len() > 0 {
        let n = declared.len() - 1;
        assert forall|i: int| 0 <= i < n implies backend_resolves_to(
            #[trigger] declared.drop_last()[i],
            secrets,
            resolved.drop_last()[i],
        ) by {
            assert(declared.drop_last()[i] == declared[i]);
        }
        lemma_same_backend(declared.drop_last(), resolved.drop_last(), secrets, name);
        assert(backend_resolves_to(declared[n], secrets, resolved[n]));
    }
}

/// Resolving a key again, with nothing changed on disk, gives the key that loading gave.
pub proof fn law_keys_resolve_as_they_loaded(
    disk: ConfigView,
    name: Seq<char>,
    secrets: SecretsView,
)
    requires
        resolve_config(disk, secrets).1 is None,
        find_backend(resolve_config(disk, secrets).0.backends, name) is Some,
    ensures
        ({
            let loaded = resolve_config(disk, secrets).0;
            key_resolution(loaded, name, Ok(disk), secrets) == match find_backend(
                loaded.backends,
                name,
            )->0.key {
                Some(key) => Ok::<Seq<char>, KeyErrorView>(key),
                None => Err::<Seq<char>, KeyErrorView>(KeyErrorView::NoKey { backend: name }),
            }
        }),
{
    law_every_text_is_resolved(disk, secrets);
    lemma_same_backend(
        disk.backends,
        resolve_config(disk, secrets).0.backends,
        secrets,
        name,
    );
}

/// Looking a backend up gives the first of that name, and nothing exactly where there is none.
pub proof fn law_find_gives_the_first(backends: Seq<BackendView>, name: Seq<char>)
    ensures
        match find_backend(backends, name) {
            Some(b) => exists|i: int|
                0 <= i < backends.len() && #[trigger] backends[i] == b && b.name == name
                    && forall|j: int| 0 <= j < i ==> (#[trigger] backends[j]).name != name,
            None => forall|i: int| 0 <= i < backends.len() ==> (#[trigger] backends[i]).name != name,
        },
    decreases backends.len(),
{
    if backends.len() > 0 {
        let rest = backends.drop_last();
        law_find_gives_the_first(rest, name);
        assert forall|i: int| 0 <= i < rest.len() implies rest[i] == #[trigger] backends[i] by {
        }
        match find_backend(rest, name) {
            Some(b) => {
                let i = choose|i: int|
                    0 <= i < rest.len() && #[trigger] rest[i] == b && b.name == name && forall|
                        j: int,
                    |
                        0 <= j < i ==> (#[trigger] rest[j]).name != name;
                assert(backends[i] == b);
            },
            None => {
                assert(backends[backends.len() - 1] == backends.last());
            },
        }
    }
}

/// Without an allowlist of its own, a backend with an API key is tried for inference paths alone,
/// and one with OAuth for every path.
pub proof fn law_default_allowlists(b: BackendView, path: Seq<char>)
    requires
        b.allowed_path_prefixes is None,
    ensures
        b.auth == AuthConfig::ApiKey ==> (b.serves(path) <==> begins(
            path,
            default_api_key_prefix(),
        )),
        b.auth == AuthConfig::Oauth ==> b.serves(path),
{
    if b.auth == AuthConfig::ApiKey {
        assert(b.effective_prefixes()[0] == default_api_key_prefix());
    }
}

/// Of several rules for one backend the last counts, and a backend without a rule has none.
pub proof fn law_last_rule_counts(rules: Seq<FaultView>, name: Seq<char>)
    ensures
        if rules_by_backend(rules).contains_key(name) {
            exists|i: int|
                0 <= i < rules.len() && #[trigger] rules[i] == rules_by_backend(rules)[name]
                    && rules[i].backend == name && forall|j: int|
                    i < j < rules.len() ==> (#[trigger] rules[j]).backend != name
        } else {
            forall|i: int| 0 <= i < rules.len() ==> (#[trigger] rules[i]).backend != name
        },
    decreases rules.len(),
{
    if rules.len() > 0 {
        let rest = rules.drop_last();
        law_last_rule_counts(rest, name);
        assert(rules[rules.len() - 1] == rules.last());
        assert forall|i: int| 0 <= i < rest.len() implies rest[i] == #[trigger] rules[i] by {
        }
        if rules.last().backend != name && rules_by_backend(rules).contains_key(name) {
            let i = choose|i: int|
                0 <= i < rest.len() && #[trigger] rest[i] == rules_by_backend(rest)[name]
                    && rest[i].backend == name && forall|j: int|
                    i < j < rest.len() ==> (#[trigger] rest[j]).backend != name;
            assert(rules[i] == rules_by_backend(rules)[name]);
            assert forall|j: int| i < j < rules.len() implies (#[trigger] rules[j]).backend
                != name by {
                if j < rest.len() {
                    assert(rest[j].backend != name);
                }
            }
        }
    }
}

/// The first text that does not resolve gives the error.
proof fn lemma_first_text(list: Seq<Seq<char>>, secrets: SecretsView, j: int, e: RefErrorView)
    requires
        is_first_error(list, secrets, j, e),
    ensures
        resolve_texts(list, secrets) == Err::<Seq<Seq<char>>, RefErrorView>(e),
{
    let done = list.take(j);
    law_lists_resolve_one_by_one(done, secrets);
    assert forall|i: int| 0 <= i < done.len() implies resolution(#[trigger] done[i], secrets) is Ok by {
        assert(done[i] == list[i]);
    }
    assert(list.take(j + 1).drop_last() == done);
    assert(list.take(j + 1).last() == list[j]);
    lemma_texts_stuck(list, secrets, j + 1);
}

/// Whether the text at `j` is the first of `list` that does not resolve, with the error `e`.
pub open spec fn is_first_error(
    list: Seq<Seq<char>>,
    secrets: SecretsView,
    j: int,
    e: RefErrorView,
) -> bool {
    &&& 0 <= j < list.len()
    &&& forall|i: int| 0 <= i < j ==> resolution(#[trigger] list[i], secrets) is Ok
    &&& resolution(list[j], secrets) == Err::<Seq<char>, RefErrorView>(e)
}

/// Whether the credentials file and the key of a backend resolve.
pub open spec fn secrets_resolve(b: BackendView, secrets: SecretsView) -> bool {
    &&& b.credentials_file matches Some(f) ==> resolution(f, secrets) is Ok
    &&& b.key matches Some(k) ==> resolution(k, secrets) is Ok
}

/// The credentials files and keys come first, backend by backend, the file before the key: the first
/// that does not resolve gives the error. The backends after it and everything but credentials files
/// and keys stay as they were.
pub proof fn law_the_first_bad_secret_is_reported(
    c: ConfigView,
    secrets: SecretsView,
    i: int,
    e: RefErrorView,
)
    requires
        0 <= i < c.backends.len(),
        forall|j: int| 0 <= j < i ==> secrets_resolve(#[trigger] c.backends[j], secrets),
        match c.backends[i].credentials_file {
            Some(f) => match resolution(f, secrets) {
                Err(first) => first == e,
                Ok(_) => c.backends[i].key matches Some(k) && resolution(k, secrets) == Err::<
                    Seq<char>,
                    RefErrorView,
                >(e),
            },
            None => c.backends[i].key matches Some(k) && resolution(k, secrets) == Err::<
                Seq<char>,
                RefErrorView,
            >(e),
        },
    ensures
        resolve_config(c, secrets).1 == Some(e),
        resolve_config(c, secrets).0 == (ConfigView {
            backends: resolve_config(c, secrets).0.backends,
            ..c
        }),
        resolve_config(c, secrets).0.backends.len() == c.backends.len(),
        forall|j: int|
            i < j < c.backends.len() ==> #[trigger] resolve_config(c, secrets).0.backends[j]
                == c.backends[j],
{
    let done = c.backends.take(i);
    law_backends_resolve_one_by_one(done, secrets);
    assert forall|j: int| 0 <= j < done.len() implies resolve_backend(
        #[trigger] done[j],
        secrets,
    ).1 is None by {
        assert(done[j] == c.backends[j]);
        assert(secrets_resolve(c.backends[j], secrets));
    }
    assert(c.backends.take(i + 1).drop_last() == done);
    assert(c.backends.take(i + 1).last() == c.backends[i]);
    lemma_stops(c.backends, secrets, i + 1);
    law_backends_resolve_one_by_one(c.backends.take(i + 1), secrets);
    assert(resolve_config(c, secrets).0.backends == resolve_backends(
        c.backends.take(i + 1),
        secrets,
    ).0 + c.backends.skip(i + 1));
}

/// Whether `e` is the error of the first text of a backend, but for its credentials file and its
/// key, that does not resolve: the name, the address, the upstream model ids in the order in which
/// they are listed, and the allowlist.
pub open spec fn first_bad_detail(b: BackendView, secrets: SecretsView, e: RefErrorView) -> bool {
    if resolution(b.name, secrets) is Err {
        resolution(b.name, secrets)->Err_0 == e
    } else if resolution(b.base_url, secrets) is Err {
        resolution(b.base_url, secrets)->Err_0 == e
    } else if exists|j: int|
        0 <= j < b.model_names.len() && resolution(
            b.model_map[#[trigger] b.model_names[j]],
            secrets,
        ) is Err {
        exists|j: int|
            {
                &&& 0 <= j < b.model_names.len()
                &&& resolution(b.model_map[#[trigger] b.model_names[j]], secrets) == Err::<
                    Seq<char>,
                    RefErrorView,
                >(e)
                &&& forall|i: int|
                    0 <= i < j ==> resolution(
                        b.model_map[#[trigger] b.model_names[i]],
                        secrets,
                    ) is Ok
            }
    } else {
        b.allowed_path_prefixes matches Some(list) && exists|j: int|
            #[trigger] is_first_error(list, secrets, j, e)
    }
}

/// The first bad detail of a backend gives the error.
proof fn lemma_first_detail(b: BackendView, secrets: SecretsView, e: RefErrorView)
    requires
        first_bad_detail(b, secrets, e),
    ensures
        resolve_details(b, secrets) == Err::<BackendView, RefErrorView>(e),
{
    let ids = values_of(b.model_map, b.model_names);
    if resolution(b.name, secrets) is Ok && resolution(b.base_url, secrets) is Ok {
        law_lists_resolve_one_by_one(ids, secrets);
        if exists|j: int|
            0 <= j < b.model_names.len() && resolution(
                b.model_map[#[trigger] b.model_names[j]],
                secrets,
            ) is Err {
            let j = choose|j: int|
                {
                    &&& 0 <= j < b.model_names.len()
                    &&& resolution(b.model_map[#[trigger] b.model_names[j]], secrets) == Err::<
                        Seq<char>,
                        RefErrorView,
                    >(e)
                    &&& forall|i: int|
                        0 <= i < j ==> resolution(
                            b.model_map[#[trigger] b.model_names[i]],
                            secrets,
                        ) is Ok
                };
            assert forall|i: int| 0 <= i < j implies resolution(#[trigger] ids[i], secrets) is Ok by {
                assert(resolution(b.model_map[b.model_names[i]], secrets) is Ok);
            }
            lemma_first_text(ids, secrets, j, e);
        } else {
            assert forall|i: int| 0 <= i < ids.len() implies resolution(
                #[trigger] ids[i],
                secrets,
            ) is Ok by {
                assert(ids[i] == b.model_map[b.model_names[i]]);
            }
            let list = b.allowed_path_prefixes->0;
            let j = choose|j: int| #[trigger] is_first_error(list, secrets, j, e);
            lemma_first_text(list, secrets, j, e);
        }
    }
}

/// The other texts come after the credentials files and keys, in order: the address to listen on, the
/// backends one by one, the failover order and the fault rules. The first that does not resolve gives
/// the error, and then none of them is changed.
pub proof fn law_the_first_bad_text_is_reported(
    c: ConfigView,
    secrets: SecretsView,
    i: int,
    e: RefErrorView,
)
    requires
        forall|j: int|
            0 <= j < c.backends.len() ==> secrets_resolve(#[trigger] c.backends[j], secrets),
        ({
            let backends_fine = forall|j: int|
                0 <= j < c.backends.len() ==> backend_resolves(#[trigger] c.backends[j], secrets);
            let named = Seq::new(
                c.fault_injection.rules.len(),
                |j: int| c.fault_injection.rules[j].backend,
            );
            ||| resolution(c.listen, secrets) == Err::<Seq<char>, RefErrorView>(e)
            ||| {
                &&& resolution(c.listen, secrets) is Ok
                &&& 0 <= i < c.backends.len()
                &&& forall|j: int|
                    0 <= j < i ==> backend_resolves(#[trigger] c.backends[j], secrets)
                &&& first_bad_detail(c.backends[i], secrets, e)
            }
            ||| {
                &&& resolution(c.listen, secrets) is Ok
                &&& backends_fine
                &&& is_first_error(c.order, secrets, i, e)
            }
            ||| {
                &&& resolution(c.listen, secrets) is Ok
                &&& backends_fine
                &&& all_resolve(c.order, secrets)
                &&& is_first_error(named, secrets, i, e)
            }
        }),
    ensures
        resolve_config(c, secrets).1 == Some(e),
        resolve_config(c, secrets).0 == (ConfigView {
            backends: resolve_config(c, secrets).0.backends,
            ..c
        }),
        resolve_config(c, secrets).0.backends.len() == c.backends.len(),
        forall|j: int|
            0 <= j < c.backends.len() ==> {
                let b = #[trigger] resolve_config(c, secrets).0.backends[j];
                &&& b == (BackendView {
                    credentials_file: b.credentials_file,
                    key: b.key,
                    ..c.backends[j]
                })
                &&& field_resolves_to(c.backends[j].credentials_file, secrets, b.credentials_file)
                &&& field_resolves_to(c.backends[j].key, secrets, b.key)
            },
{
    let keyed = resolve_backends(c.backends, secrets).0;
    law_backends_resolve_one_by_one(c.backends, secrets);
    assert forall|j: int| 0 <= j < c.backends.len() implies resolve_backend(
        #[trigger] c.backends[j],
        secrets,
    ).1 is None by {
        assert(secrets_resolve(c.backends[j], secrets));
    }
    if resolution(c.listen, secrets) is Ok {
        assert forall|j: int|
            0 <= j < keyed.len() && backend_resolves(c.backends[j], secrets) implies resolve_details(
            #[trigger] keyed[j],
            secrets,
        ) is Ok by {
            let b = c.backends[j];
            assert(keyed[j] == resolve_backend(b, secrets).0);
            let ids = values_of(b.model_map, b.model_names);
            law_lists_resolve_one_by_one(ids, secrets);
            assert forall|k: int| 0 <= k < ids.len() implies resolution(
                #[trigger] ids[k],
                secrets,
            ) is Ok by {
                assert(ids[k] == b.model_map[b.model_names[k]]);
            }
            if let Some(list) = b.allowed_path_prefixes {
                law_lists_resolve_one_by_one(list, secrets);
            }
        }
        if forall|j: int|
            0 <= j < c.backends.len() ==> backend_resolves(#[trigger] c.backends[j], secrets) {
            law_details_resolve_one_by_one(keyed, secrets);
            assert forall|j: int| 0 <= j < keyed.len() implies resolve_details(
                #[trigger] keyed[j],
                secrets,
            ) is Ok by {
                assert(backend_resolves(c.backends[j], secrets));
            }
            law_lists_resolve_one_by_one(c.order, secrets);
            let named = Seq::new(
                c.fault_injection.rules.len(),
                |j: int| c.fault_injection.rules[j].backend,
            );
            assert(named =~= rule_backends(c.fault_injection.rules));
            if 0 <= i < c.backends.len() && first_bad_detail(c.backends[i], secrets, e) {
                assert(keyed[i] == resolve_backend(c.backends[i], secrets).0);
                lemma_first_detail(keyed[i], secrets, e);
                assert(backend_resolves(c.backends[i], secrets));
                assert(resolve_details(keyed[i], secrets) is Ok);
            }
            if is_first_error(c.order, secrets, i, e) {
                lemma_first_text(c.order, secrets, i, e);
            } else {
                lemma_first_text(named, secrets, i, e);
            }
        } else {
            let done = keyed.take(i);
            law_details_resolve_one_by_one(done, secrets);
            assert forall|j: int| 0 <= j < done.len() implies resolve_details(
                #[trigger] done[j],
                secrets,
            ) is Ok by {
                assert(done[j] == keyed[j]);
                assert(backend_resolves(c.backends[j], secrets));
            }
            assert(keyed[i] == resolve_backend(c.backends[i], secrets).0);
            lemma_first_detail(keyed[i], secrets, e);
            assert(keyed.take(i + 1).drop_last() == done);
            assert(keyed.take(i + 1).last() == keyed[i]);
            lemma_details_stuck(keyed, secrets, i + 1);
        }
    }
    assert forall|j: int| 0 <= j < c.backends.len() implies {
        let b = #[trigger] resolve_config(c, secrets).0.backends[j];
        &&& b == (BackendView {
            credentials_file: b.credentials_file,
            key: b.key,
            ..c.backends[j]
        })
        &&& field_resolves_to(c.backends[j].credentials_file, secrets, b.credentials_file)
        &&& field_resolves_to(c.backends[j].key, secrets, b.key)
    } by {
        assert(keyed[j] == resolve_backend(c.backends[j], secrets).0);
        assert(secrets_resolve(c.backends[j], secrets));
    }
}

/// Whether the backend at `k` is the first whose name stands for `name`.
pub open spec fn is_first_declared(
    backends: Seq<BackendView>,
    name: Seq<char>,
    secrets: SecretsView,
    k: int,
) -> bool {
    &&& 0 <= k < backends.len()
    &&& resolution(backends[k].name, secrets) == Ok::<Seq<char>, RefErrorView>(name)
    &&& forall|j: int|
        0 <= j < k ==> resolution((#[trigger] backends[j]).name, secrets) != Ok::<
            Seq<char>,
            RefErrorView,
        >(name)
}

/// The first backend whose name stands for `name` is the one that is found.
proof fn lemma_first_declared(
    backends: Seq<BackendView>,
    name: Seq<char>,
    secrets: SecretsView,
)
    ensures
        forall|k: int| #[trigger]
            is_first_declared(backends, name, secrets, k) ==> find_declared(backends, name, secrets)
                == Some(backends[k]),
        (forall|k: int|
            0 <= k < backends.len() ==> resolution((#[trigger] backends[k]).name, secrets) != Ok::<
                Seq<char>,
                RefErrorView,
            >(name)) ==> find_declared(backends, name, secrets) is None,
    decreases backends.len(),
{
    if backends.len() > 0 {
        let rest = backends.drop_last();
        let n = backends.len() - 1;
        lemma_first_declared(rest, name, secrets);
        assert forall|i: int| 0 <= i < rest.len() implies rest[i] == #[trigger] backends[i] by {
        }
        assert forall|k: int| #[trigger]
            is_first_declared(backends, name, secrets, k) implies find_declared(
            backends,
            name,
            secrets,
        ) == Some(backends[k]) by {
            if k < n {
                assert forall|j: int| 0 <= j < k implies resolution(
                    (#[trigger] rest[j]).name,
                    secrets,
                ) != Ok::<Seq<char>, RefErrorView>(name) by {
                    assert(rest[j] == backends[j]);
                }
                assert(is_first_declared(rest, name, secrets, k));
            } else {
                assert forall|j: int| 0 <= j < rest.len() implies resolution(
                    (#[trigger] rest[j]).name,
                    secrets,
                ) != Ok::<Seq<char>, RefErrorView>(name) by {
                    assert(rest[j] == backends[j]);
                }
            }
        }
        if forall|k: int|
            0 <= k < backends.len() ==> resolution((#[trigger] backends[k]).name, secrets) != Ok::<
                Seq<char>,
                RefErrorView,
            >(name) {
            assert forall|j: int| 0 <= j < rest.len() implies resolution(
                (#[trigger] rest[j]).name,
                secrets,
            ) != Ok::<Seq<char>, RefErrorView>(name) by {
                assert(rest[j] == backends[j]);
            }
            assert(backends[n] == backends.last());
        }
    }
}

/// A key is resolved from what is on disk alone. Whatever keys two running configurations hold, if
/// both have the backend the outcome is the same: what the key stands for that the first backend of
/// that name declares on disk, or the reason why there is none.
pub proof fn law_keys_come_from_disk(
    running: ConfigView,
    other: ConfigView,
    name: Seq<char>,
    disk: ConfigView,
    error: LoadErrorView,
    secrets: SecretsView,
    k: int,
)
    requires
        exists|i: int| 0 <= i < running.backends.len() && (#[trigger] running.backends[i]).name == name,
        exists|i: int| 0 <= i < other.backends.len() && (#[trigger] other.backends[i]).name == name,
    ensures
        key_resolution(running, name, Ok(disk), secrets) == key_resolution(
            other,
            name,
            Ok(disk),
            secrets,
        ),
        key_resolution(running, name, Err(error), secrets) == Err::<Seq<char>, KeyErrorView>(
            KeyErrorView::Load(error),
        ),
        is_first_declared(disk.backends, name, secrets, k) ==> key_resolution(
            running,
            name,
            Ok(disk),
            secrets,
        ) == match disk.backends[k].key {
            None => Err::<Seq<char>, KeyErrorView>(KeyErrorView::NoKey { backend: name }),
            Some(declared) => match resolution(declared, secrets) {
                Ok(key) => Ok::<Seq<char>, KeyErrorView>(key),
                Err(e) => Err::<Seq<char>, KeyErrorView>(KeyErrorView::Reference(e)),
            },
        },
        (forall|j: int|
            0 <= j < disk.backends.len() ==> resolution((#[trigger] disk.backends[j]).name, secrets)
                != Ok::<Seq<char>, RefErrorView>(name)) ==> key_resolution(
            running,
            name,
            Ok(disk),
            secrets,
        ) == Err::<Seq<char>, KeyErrorView>(KeyErrorView::NotOnDisk { backend: name }),
{
    law_find_gives_the_first(running.backends, name);
    law_find_gives_the_first(other.backends, name);
    lemma_first_declared(disk.backends, name, secrets);
}

/// A key is not resolved for a backend that the running configuration does not have.
pub proof fn law_unknown_backends_have_no_key(
    running: ConfigView,
    name: Seq<char>,
    disk: Result<ConfigView, LoadErrorView>,
    secrets: SecretsView,
)
    requires
        forall|i: int|
            0 <= i < running.backends.len() ==> (#[trigger] running.backends[i]).name != name,
    ensures
        key_resolution(running, name, disk, secrets) == Err::<Seq<char>, KeyErrorView>(
            KeyErrorView::NotFound { backend: name },
        ),
{
    law_find_gives_the_first(running.backends, name);
}

/// A backend is tried for the paths that continue one of its prefixes, or for every path where it
/// lists none. Where it has no list the prefix is `/v1/messages` with an API key, and there is none
/// with OAuth.
pub proof fn law_backends_serve_what_they_list(b: BackendView, path: Seq<char>)
    ensures
        b.serves(path) <==> match b.allowed_path_prefixes {
            Some(list) => list.len() == 0 || exists|i: int, rest: Seq<char>|
                0 <= i < list.len() && path == #[trigger] (list[i] + rest),
            None => b.auth == AuthConfig::Oauth || exists|rest: Seq<char>|
                path == #[trigger] ("/v1/messages"@ + rest),
        },
        b.allowed_path_prefixes matches Some(list) ==> b.effective_prefixes() == list,
        b.allowed_path_prefixes is None && b.auth == AuthConfig::ApiKey ==> b.effective_prefixes()
            == seq!["/v1/messages"@],
        b.allowed_path_prefixes is None && b.auth == AuthConfig::Oauth ==> b.effective_prefixes()
            == Seq::<Seq<char>>::empty(),
{
    let prefixes = b.effective_prefixes();
    law_beginnings_are_continued(path, "/v1/messages"@);
    assert forall|i: int| 0 <= i < prefixes.len() implies (begins(path, #[trigger] prefixes[i])
        <==> exists|rest: Seq<char>| path == #[trigger] (prefixes[i] + rest)) by {
        law_beginnings_are_continued(path, prefixes[i]);
    }
    match b.allowed_path_prefixes {
        Some(list) => {
            if exists|i: int, rest: Seq<char>|
                0 <= i < list.len() && path == #[trigger] (list[i] + rest) {
                let (i, rest) = choose|i: int, rest: Seq<char>|
                    0 <= i < list.len() && path == #[trigger] (list[i] + rest);
                assert(begins(path, prefixes[i]));
            }
            if list.len() > 0 && b.serves(path) {
                let i = choose|i: int| 0 <= i < prefixes.len() && begins(path, #[trigger] prefixes[i]);
                let rest = choose|rest: Seq<char>| path == #[trigger] (prefixes[i] + rest);
                assert(path == list[i] + rest);
            }
        },
        None => {
            if b.auth == AuthConfig::ApiKey {
                assert(prefixes[0] == "/v1/messages"@);
            }
        },
    }
}

/// A leading `~` becomes the home directory where it stands alone or before a slash; without a home
/// directory, and with any other path, nothing changes.
pub proof fn law_a_leading_tilde_is_the_home(path: Seq<char>, home: Seq<char>, rest: Seq<char>)
    ensures
        expanded("~"@, Some(home)) == home,
        expanded("~/"@ + rest, Some(home)) == home + "/"@ + rest,
        expanded(path, None) == path,
        path != "~"@ && (forall|r: Seq<char>| path != #[trigger] ("~/"@ + r)) ==> expanded(
            path,
            Some(home),
        ) == path,
{
    reveal_strlit("~");
    reveal_strlit("~/");
    reveal_strlit("/");
    assert(home + "~"@.skip(1) == home);
    assert(home + ("~/"@ + rest).skip(1) == home + "/"@ + rest);
    if path.len() > 0 && path[0] == '~' {
        if path.len() == 1 {
            assert(path == "~"@);
        } else if path[1] == '/' {
            assert(path == "~/"@ + path.skip(2));
        }
    }
}

/// What each error says.
pub proof fn law_what_key_errors_say(
    backend: Seq<char>,
    path: Seq<char>,
    e: LoadErrorView,
    r: RefErrorView,
)
    ensures
        (LoadErrorView::Reading { path }).message() == "reading config from "@ + path,
        LoadErrorView::Parsing.message() == "parsing config TOML"@,
        (KeyErrorView::NotFound { backend }).message() == "backend '"@ + backend + "' not found"@,
        (KeyErrorView::NotOnDisk { backend }).message() == "backend '"@ + backend
            + "' not in on-disk config"@,
        (KeyErrorView::NoKey { backend }).message() == "backend '"@ + backend
            + "' has no key field"@,
        KeyErrorView::Load(e).message() == e.message(),
        KeyErrorView::Reference(r).message() == r.message(),
{
}

/// The contents of a backend are its fields.
pub proof fn law_contents_of_a_backend(b: Backend)
    ensures
        b@.name == b.name@,
        b@.base_url == b.base_url@,
        b@.auth == b.auth,
        b.credentials_file matches Some(f) ==> b@.credentials_file == Some(f@),
        b.credentials_file is None ==> b@.credentials_file is None,
        b.key matches Some(k) ==> b@.key == Some(k@),
        b.key is None ==> b@.key is None,
        b@.model_map == b.model_map@,
        b@.model_names == b.model_map.names(),
        b.allowed_path_prefixes matches Some(list) ==> b@.allowed_path_prefixes matches Some(texts)
            && texts.len() == list@.len() && forall|i: int|
            0 <= i < texts.len() ==> #[trigger] texts[i] == list@[i]@,
        b.allowed_path_prefixes is None ==> b@.allowed_path_prefixes is None,
{
}

/// The contents of a configuration are its fields.
pub proof fn law_contents_of_a_configuration(c: Config)
    ensures
        c@.listen == c.proxy.listen@,
        c@.backends.len() == c.backends@.len(),
        forall|i: int| 0 <= i < c.backends@.len() ==> #[trigger] c@.backends[i] == c.backends@[i]@,
        c@.order.len() == c.failover.order@.len(),
        forall|i: int|
            0 <= i < c.failover.order@.len() ==> #[trigger] c@.order[i] == c.failover.order@[i]@,
        c@.triggers == c.failover.triggers@,
        c@.fault_injection.enabled == c.fault_injection.enabled,
        c@.fault_injection.rules.len() == c.fault_injection.rules@.len(),
        forall|i: int|
            0 <= i < c.fault_injection.rules@.len() ==> #[trigger] c@.fault_injection.rules[i]
                == c.fault_injection.rules@[i]@,
        c.secrets matches Some(s) ==> c@.secrets_source == Some(s.source@),
        c.secrets is None ==> c@.secrets_source is None,
{
}

/// The contents of a fault rule and of the errors are their fields.
pub proof fn law_contents_of_a_rule(
    rule: FaultRule,
    backend: String,
    path: String,
    e: LoadError,
    r: RefError,
)
    ensures
        rule@.backend == rule.backend@,
        rule@.status == rule.status,
        rule@.rate == rule.rate,
        (LoadError::Reading { path })@ == (LoadErrorView::Reading { path: path@ }),
        LoadError::Parsing@ == LoadErrorView::Parsing,
        (KeyError::NotFound { backend })@ == (KeyErrorView::NotFound { backend: backend@ }),
        KeyError::Load(e)@ == KeyErrorView::Load(e@),
        (KeyError::NotOnDisk { backend })@ == (KeyErrorView::NotOnDisk { backend: backend@ }),
        (KeyError::NoKey { backend })@ == (KeyErrorView::NoKey { backend: backend@ }),
        KeyError::Reference(r)@ == KeyErrorView::Reference(r@),
{
}

/// The contents of what was read are those of the configuration, or of the error.
pub proof fn law_contents_of_what_was_read(config: Config, error: LoadError, text: String, s: &str)
    ensures
        load_view(Ok(config)) == Ok::<ConfigView, LoadErrorView>(config@),
        load_view(Err(error)) == Err::<ConfigView, LoadErrorView>(error@),
        optional_text(Some(text)) == Some(text@),
        optional_text(None) is None,
        optional_str(Some(s)) == Some(s@),
        optional_str(None) is None,
{
}

} // verus!
