//! What becomes of a request, told by what goes in and what comes out.

use vstd::prelude::*;

use crate::body::{
    json_document, json_text, law_mapped_models_are_translated, law_other_bodies_are_not_touched,
    rewritten, Json,
};
use crate::config::{
    find_backend, law_backends_serve_what_they_list, law_find_gives_the_first, AuthConfig,
    BackendView,
};
use crate::credentials::CredentialView;
use crate::metrics::MetricsView;
use crate::proxy::{
    expects, law_seek_finds_the_first, ActionView, AppView, AuthView, Dispatch, EventView, Phase,
    RequestView, StepView,
};
use crate::rate::{law_firing_on_draws, Rate};
use crate::text::{
    before, law_before_ends_at_the_first, law_trimming_takes_the_run, trimmed_end,
};

verus! {

/// Whether `path` is the path of `target`: all of it, or what stands before its query.
pub open spec fn is_path_of(path: Seq<char>, target: Seq<char>) -> bool {
    &&& !path.contains('?')
    &&& target == path || exists|query: Seq<char>| target == #[trigger] (path + "?"@ + query)
}

/// Whether the backend at `k` is the first with the name `name`.
pub open spec fn is_first_named(backends: Seq<BackendView>, name: Seq<char>, k: int) -> bool {
    &&& 0 <= k < backends.len()
    &&& backends[k].name == name
    &&& forall|j: int| 0 <= j < k ==> (#[trigger] backends[j]).name != name
}

/// Whether a backend may be tried for `path`: the path continues one of the prefixes that it lists,
/// or it lists none. Without a list the prefix is `/v1/messages` with an API key, and there is none
/// with OAuth.
pub open spec fn lists_path(b: BackendView, path: Seq<char>) -> bool {
    match b.allowed_path_prefixes {
        Some(list) => list.len() == 0 || exists|i: int, rest: Seq<char>|
            0 <= i < list.len() && path == #[trigger] (list[i] + rest),
        None => b.auth == AuthConfig::Oauth || exists|rest: Seq<char>|
            path == #[trigger] ("/v1/messages"@ + rest),
    }
}

/// Whether a request for `path` can be brought to position `i` of the failover order: the name there
/// is that of a backend that is ready, and the first configured one of that name lists the path.
pub open spec fn can_be_tried(app: AppView, path: Seq<char>, i: int) -> bool {
    &&& 0 <= i < app.config.order.len()
    &&& app.backends.contains_key(app.config.order[i])
    &&& exists|k: int| #[trigger]
        is_first_named(app.config.backends, app.config.order[i], k) && lists_path(
            app.config.backends[k],
            path,
        )
}

/// Whether `url` is `base`, without the slashes at its end, followed by the whole of `target`.
pub open spec fn is_address(base: Seq<char>, target: Seq<char>, url: Seq<char>) -> bool {
    exists|n: int|
        {
            &&& 0 <= n <= base.len()
            &&& url == #[trigger] base.take(n) + target
            &&& n > 0 ==> base[n - 1] != '/'
            &&& forall|j: int| n <= j < base.len() ==> base[j] == '/'
        }
}

/// Whether `sent` is what goes upstream for `body`: a JSON object whose `model` is a string that
/// `map` has, with the map's id in its place, and any other body as it is.
pub open spec fn is_sent_for(
    body: Seq<u8>,
    map: Map<Seq<char>, Seq<char>>,
    sent: Seq<u8>,
) -> bool {
    match json_document(body) {
        Some(Json::Object(members)) => if members.contains_key("model"@) {
            match members["model"@] {
                Json::Text(model) => if map.contains_key(model) {
                    sent == json_text(
                        Json::Object(members.insert("model"@, Json::Text(map[model]))),
                    )
                } else {
                    sent == body
                },
                _ => sent == body,
            }
        } else {
            sent == body
        },
        _ => sent == body,
    }
}

/// Whether `action` sends the request to the backend at position `i` with `secret`, and with the
/// beta flag if `oauth`.
pub open spec fn sends(
    app: AppView,
    request: RequestView,
    i: int,
    secret: Seq<char>,
    oauth: bool,
    action: ActionView,
) -> bool {
    match action {
        ActionView::Send { url, authorization, oauth_beta, body } => {
            &&& authorization == "Bearer "@ + secret
            &&& oauth_beta == oauth
            &&& exists|k: int|
                {
                    &&& #[trigger] is_first_named(app.config.backends, app.config.order[i], k)
                    &&& is_address(app.config.backends[k].base_url, request.target, url)
                    &&& is_sent_for(request.body, app.config.backends[k].model_map, body)
                }
        },
        _ => false,
    }
}

/// Whether the backend at position `i` is asked: at once with its key or its token, unless the token
/// has expired, and then the credentials file is loaded first.
pub open spec fn asks(
    app: AppView,
    request: RequestView,
    i: int,
    now_ms: u64,
    dispatch: Dispatch,
    action: ActionView,
) -> bool {
    &&& dispatch.at == i
    &&& match app.backends[app.config.order[i]] {
        AuthView::ApiKey { key } => {
            &&& dispatch.phase == Phase::AwaitingKeyed
            &&& sends(app, request, i, key, false, action)
        },
        AuthView::Oauth { credentials_file, token } => if token.expires_at <= now_ms {
            &&& dispatch.phase == Phase::Refreshing
            &&& action == (ActionView::LoadCredentials { file: credentials_file })
        } else {
            &&& dispatch.phase == Phase::AwaitingFirst
            &&& sends(app, request, i, token.access_token, true, action)
        },
    }
}

/// Whether `r` is `m` with one more try of `name`, and nothing else.
pub open spec fn counts_a_try(m: MetricsView, name: Seq<char>, r: MetricsView) -> bool {
    &&& r == (MetricsView { requests: r.requests, ..m })
    &&& r.requests.dom() == m.requests.dom()
    &&& forall|n: Seq<char>| #[trigger]
        m.requests.contains_key(n) ==> r.requests[n] == if n == name {
            (m.requests[n] + 1) % 0x1_0000_0000_0000_0000
        } else {
            m.requests[n] as int
        }
}

/// Whether `r` is `m` with `status` as the last one of `name`, with `faults` more injected faults
/// and `failovers` more failovers, and nothing else.
pub open spec fn notes(
    m: MetricsView,
    name: Seq<char>,
    status: u16,
    faults: int,
    failovers: int,
    r: MetricsView,
) -> bool {
    &&& r.start_time == m.start_time
    &&& r.requests == m.requests
    &&& r.faults_injected == (m.faults_injected + faults) % 0x1_0000_0000_0000_0000
    &&& r.failovers == (m.failovers + failovers) % 0x1_0000_0000_0000_0000
    &&& r.last_status.dom() == m.last_status.dom()
    &&& forall|n: Seq<char>| #[trigger]
        m.last_status.contains_key(n) ==> r.last_status[n] == if n == name {
            status
        } else {
            m.last_status[n]
        }
}

/// Whether a request comes to position `i`: one more try is counted, and then the fault rule of the
/// backend is drawn for, or the backend is asked where it has none.
pub open spec fn comes_to(
    app: AppView,
    request: RequestView,
    i: int,
    now_ms: u64,
    next: StepView,
) -> bool {
    let name = app.config.order[i];
    &&& next.dispatch.at == i
    &&& next.app == (AppView { metrics: next.app.metrics, ..app })
    &&& counts_a_try(app.metrics, name, next.app.metrics)
    &&& if app.faults.contains_key(name) {
        &&& next.action == ActionView::Draw
        &&& next.dispatch.phase == (Phase::Drawing {
            status: app.faults[name].status,
            rate: app.faults[name].rate,
        })
    } else {
        asks(app, request, i, now_ms, next.dispatch, next.action)
    }
}

/// Whether a request looks for a backend from position `from` on: it comes to the first one that can
/// be tried for its path, and is answered 502 where there is none.
pub open spec fn looks_from(
    app: AppView,
    request: RequestView,
    path: Seq<char>,
    from: int,
    now_ms: u64,
    next: StepView,
) -> bool {
    ||| exists|i: int|
        {
            &&& from <= i
            &&& #[trigger] can_be_tried(app, path, i)
            &&& forall|j: int| from <= j < i ==> !#[trigger] can_be_tried(app, path, j)
            &&& comes_to(app, request, i, now_ms, next)
        }
    ||| {
        &&& forall|i: int| from <= i ==> !#[trigger] can_be_tried(app, path, i)
        &&& next.app == app
        &&& next.dispatch == (Dispatch {
            at: app.config.order.len() as usize,
            phase: Phase::Finished,
        })
        &&& next.action == (ActionView::Answer { status: 502 })
    }
}

/// The path of a request is what stands before its query.
pub proof fn law_paths_end_at_the_query(path: Seq<char>, request: RequestView)
    requires
        is_path_of(path, request.target),
    ensures
        request.path() == path,
{
    reveal_strlit("?");
    let target = request.target;
    law_before_ends_at_the_first(target, '?');
    let found = before(target, '?');
    if found.len() < path.len() {
        assert(target[found.len() as int] == '?');
        assert(path[found.len() as int] == '?');
        assert(path.contains('?'));
    }
    if found.len() > path.len() {
        assert(target[path.len() as int] == '?');
        assert(found[path.len() as int] == target.take(found.len() as int)[path.len() as int]);
        assert(found.contains('?'));
    }
    assert(target.take(path.len() as int) == path);
}

/// A backend can be tried where it is ready and the first configured one of its name lists the path.
pub proof fn law_backends_that_can_be_tried(app: AppView, path: Seq<char>, i: int)
    ensures
        app.eligible(path, i) <==> can_be_tried(app, path, i),
{
    if 0 <= i < app.config.order.len() {
        let backends = app.config.backends;
        let name = app.config.order[i];
        law_find_gives_the_first(backends, name);
        match find_backend(backends, name) {
            Some(b) => {
                law_backends_serve_what_they_list(b, path);
                let k = choose|k: int|
                    0 <= k < backends.len() && #[trigger] backends[k] == b && b.name == name
                        && forall|j: int| 0 <= j < k ==> (#[trigger] backends[j]).name != name;
                assert(is_first_named(backends, name, k));
                if can_be_tried(app, path, i) {
                    let l = choose|l: int| #[trigger]
                        is_first_named(backends, name, l) && lists_path(backends[l], path);
                    if l < k {
                        assert(backends[l].name != name);
                    }
                    if k < l {
                        assert(backends[k].name != name);
                    }
                }
            },
            None => {
                if can_be_tried(app, path, i) {
                    let l = choose|l: int| #[trigger]
                        is_first_named(backends, name, l) && lists_path(backends[l], path);
                    assert(backends[l].name != name);
                }
            },
        }
    }
}

/// What is sent to a backend: to its own address, with the whole path and query of the request, with
/// its own secret, and with the body that is meant for it.
pub proof fn law_requests_are_sent_whole(
    app: AppView,
    request: RequestView,
    path: Seq<char>,
    i: int,
)
    requires
        can_be_tried(app, path, i),
    ensures
        sends(
            app,
            request,
            i,
            match app.backends[app.config.order[i]] {
                AuthView::Oauth { token, .. } => token.access_token,
                AuthView::ApiKey { key } => key,
            },
            app.backends[app.config.order[i]] is Oauth,
            app.send(request, i),
        ),
{
    let backends = app.config.backends;
    let name = app.config.order[i];
    law_backends_that_can_be_tried(app, path, i);
    law_find_gives_the_first(backends, name);
    let b = find_backend(backends, name)->0;
    let k = choose|k: int|
        0 <= k < backends.len() && #[trigger] backends[k] == b && b.name == name && forall|j: int|
            0 <= j < k ==> (#[trigger] backends[j]).name != name;
    assert(is_first_named(backends, name, k));
    law_trimming_takes_the_run(b.base_url, '/');
    let n = trimmed_end(b.base_url, '/').len() as int;
    let url = app.send(request, i)->url;
    assert(url == b.base_url.take(n) + request.target);
    assert(n > 0 ==> b.base_url.take(n).last() == b.base_url[n - 1]);
    assert(is_address(b.base_url, request.target, url));
    let sent = app.send(request, i)->body;
    assert(sent == rewritten(request.body, b.model_map));
    assert(is_sent_for(request.body, b.model_map, sent)) by {
        match json_document(request.body) {
            Some(Json::Object(members)) => {
                if members.contains_key("model"@) && members["model"@] is Text
                    && b.model_map.contains_key(members["model"@]->Text_0) {
                    law_mapped_models_are_translated(
                        members,
                        members["model"@]->Text_0,
                        b.model_map,
                    );
                } else {
                    law_other_bodies_are_not_touched(request.body, b.model_map);
                }
            },
            _ => {
                law_other_bodies_are_not_touched(request.body, b.model_map);
            },
        }
    }
}

/// A backend that is tried is asked at once, unless its token has expired.
proof fn lemma_attempt_asks(
    app: AppView,
    request: RequestView,
    path: Seq<char>,
    i: int,
    now_ms: u64,
)
    requires
        can_be_tried(app, path, i),
        i <= usize::MAX,
    ensures
        app.attempt(request, i, now_ms).app == app,
        asks(
            app,
            request,
            i,
            now_ms,
            app.attempt(request, i, now_ms).dispatch,
            app.attempt(request, i, now_ms).action,
        ),
{
    law_requests_are_sent_whole(app, request, path, i);
}

/// What was counted does not matter to what is sent.
proof fn lemma_asks_alike(
    a: AppView,
    b: AppView,
    request: RequestView,
    i: int,
    now_ms: u64,
    dispatch: Dispatch,
    action: ActionView,
)
    requires
        asks(a, request, i, now_ms, dispatch, action),
        b == (AppView { metrics: b.metrics, ..a }),
    ensures
        asks(b, request, i, now_ms, dispatch, action),
{
}

/// A request comes in, or goes on, to the first backend in the order that can be tried for its path,
/// and to no other; it is answered 502 where there is none.
pub proof fn law_requests_look_for_the_first_backend(
    app: AppView,
    request: RequestView,
    path: Seq<char>,
    from: int,
    now_ms: u64,
)
    requires
        is_path_of(path, request.target),
        0 <= from,
        app.config.order.len() <= usize::MAX,
    ensures
        looks_from(app, request, path, from, now_ms, app.seek(request, from, now_ms)),
{
    law_paths_end_at_the_query(path, request);
    law_seek_finds_the_first(app, path, from);
    assert forall|i: int| app.eligible(path, i) <==> #[trigger] can_be_tried(app, path, i) by {
        law_backends_that_can_be_tried(app, path, i);
    }
    let next = app.seek(request, from, now_ms);
    match app.next_eligible(path, from) {
        None => {
            assert forall|i: int| from <= i implies !#[trigger] can_be_tried(app, path, i) by {
                assert(!app.eligible(path, i));
            }
        },
        Some(i) => {
            assert(can_be_tried(app, path, i));
            assert forall|j: int| from <= j < i implies !#[trigger] can_be_tried(app, path, j) by {
                assert(!app.eligible(path, j));
            }
            let name = app.config.order[i];
            let counted = AppView { metrics: app.metrics.tried(name), ..app };
            assert(counted.metrics.requests.dom() =~= app.metrics.requests.dom());
            assert(counts_a_try(app.metrics, name, counted.metrics));
            if !app.faults.contains_key(name) {
                assert(can_be_tried(counted, path, i)) by {
                    let k = choose|k: int| #[trigger]
                        is_first_named(app.config.backends, name, k) && lists_path(
                            app.config.backends[k],
                            path,
                        );
                    assert(is_first_named(counted.config.backends, name, k));
                }
                lemma_attempt_asks(counted, request, path, i, now_ms);
                lemma_asks_alike(
                    counted,
                    app,
                    request,
                    i,
                    now_ms,
                    next.dispatch,
                    next.action,
                );
            }
            assert(comes_to(app, request, i, now_ms, next));
        },
    }
}

/// Whether `mid` is the proxy after `status` was noted of `name`, with `faults` more faults, and with
/// one more failover exactly where the status is one of the configured triggers.
pub open spec fn is_noted(
    app: AppView,
    name: Seq<char>,
    status: u16,
    faults: int,
    mid: AppView,
) -> bool {
    &&& mid == (AppView { metrics: mid.metrics, ..app })
    &&& notes(
        app.metrics,
        name,
        status,
        faults,
        if app.config.triggers.contains(status) {
            1
        } else {
            0
        },
        mid.metrics,
    )
}

/// A draw decides whether a fault rule fires: where its rate is a number and the draw is below it.
/// The fault is then counted and its status noted. If the status is one of the configured triggers a
/// failover is counted and the request looks for a later backend; otherwise the client gets the
/// status, or 500 where it is none. A rule that does not fire leaves no trace, and the backend is
/// asked.
pub proof fn law_what_a_draw_leads_to(
    app: AppView,
    request: RequestView,
    path: Seq<char>,
    at: usize,
    status: u16,
    rate: Rate,
    draw: u64,
    now_ms: u64,
)
    requires
        is_path_of(path, request.target),
        app.config.order.len() <= usize::MAX,
        can_be_tried(app, path, at as int),
        draw < 0x3ff0_0000_0000_0000,
    ensures
        ({
            let name = app.config.order[at as int];
            let dispatch = Dispatch { at, phase: Phase::Drawing { status, rate } };
            let next = app.step(request, dispatch, EventView::Drawn { draw }, now_ms);
            if draw < rate.bits && rate.bits <= 0x7ff0_0000_0000_0000 {
                exists|mid: AppView|
                    {
                        &&& #[trigger] is_noted(app, name, status, 1, mid)
                        &&& if app.config.triggers.contains(status) {
                            looks_from(mid, request, path, at + 1, now_ms, next)
                        } else {
                            &&& next.app == mid
                            &&& next.dispatch == (Dispatch { at, phase: Phase::Finished })
                            &&& next.action == (ActionView::Answer {
                                status: if 100 <= status <= 999 {
                                    status
                                } else {
                                    500
                                },
                            })
                        }
                    }
            } else {
                &&& next.app == app
                &&& asks(app, request, at as int, now_ms, next.dispatch, next.action)
            }
        }),
{
    let name = app.config.order[at as int];
    law_firing_on_draws(draw, rate.bits);
    if draw < rate.bits && rate.bits <= 0x7ff0_0000_0000_0000 {
        let noted = app.metrics.faulted().answered(name, status);
        assert(noted.last_status.dom() =~= app.metrics.last_status.dom());
        if app.config.triggers.contains(status) {
            let mid = AppView { metrics: noted.failed_over(), ..app };
            assert(is_noted(app, name, status, 1, mid));
            law_requests_look_for_the_first_backend(mid, request, path, at + 1, now_ms);
        } else {
            let mid = AppView { metrics: noted, ..app };
            assert(is_noted(app, name, status, 1, mid));
        }
    } else {
        lemma_attempt_asks(app, request, path, at as int, now_ms);
    }
}

/// A credentials file that was loaded gives the backend its new token, whole, and one that could not
/// be loaded leaves the token that there was; no other backend changes. The request is then sent with
/// the token in force, for the first time after an expiry and for the second after a rejection.
pub proof fn law_what_a_load_leads_to(
    app: AppView,
    request: RequestView,
    path: Seq<char>,
    at: usize,
    refreshing: bool,
    loaded: Option<CredentialView>,
    now_ms: u64,
)
    requires
        can_be_tried(app, path, at as int),
        app.backends[app.config.order[at as int]] is Oauth,
    ensures
        ({
            let name = app.config.order[at as int];
            let dispatch = Dispatch {
                at,
                phase: if refreshing {
                    Phase::Refreshing
                } else {
                    Phase::Reloading
                },
            };
            let next = app.step(request, dispatch, EventView::Loaded { loaded }, now_ms);
            let token = match loaded {
                Some(credential) => credential,
                None => app.backends[name]->token,
            };
            &&& next.app == (AppView {
                backends: app.backends.insert(
                    name,
                    AuthView::Oauth {
                        credentials_file: app.backends[name]->credentials_file,
                        token,
                    },
                ),
                ..app
            })
            &&& next.dispatch == (Dispatch {
                at,
                phase: if refreshing {
                    Phase::AwaitingFirst
                } else {
                    Phase::AwaitingRetry
                },
            })
            &&& sends(next.app, request, at as int, token.access_token, true, next.action)
        }),
{
    let name = app.config.order[at as int];
    let after = AppView {
        backends: app.backends.insert(name, app.backends[name].reloaded(loaded)),
        ..app
    };
    assert(can_be_tried(after, path, at as int)) by {
        let k = choose|k: int| #[trigger]
            is_first_named(app.config.backends, name, k) && lists_path(
                app.config.backends[k],
                path,
            );
        assert(is_first_named(after.config.backends, name, k));
    }
    law_requests_are_sent_whole(after, request, path, at as int);
}

/// A backend that does not reply is passed over, without a trace: the request looks for a later one.
pub proof fn law_what_no_reply_leads_to(
    app: AppView,
    request: RequestView,
    path: Seq<char>,
    dispatch: Dispatch,
    now_ms: u64,
)
    requires
        is_path_of(path, request.target),
        app.config.order.len() <= usize::MAX,
        expects(dispatch.phase, EventView::Replied { status: None }),
    ensures
        looks_from(
            app,
            request,
            path,
            dispatch.at + 1,
            now_ms,
            app.step(request, dispatch, EventView::Replied { status: None }, now_ms),
        ),
{
    law_requests_look_for_the_first_backend(app, request, path, dispatch.at + 1, now_ms);
}

/// A token that is rejected the first time, with 401, makes the credentials file of its backend be
/// loaded; rejected the second time it makes the request look for a later backend. Neither leaves a
/// trace.
pub proof fn law_what_a_rejected_token_leads_to(
    app: AppView,
    request: RequestView,
    path: Seq<char>,
    at: usize,
    now_ms: u64,
)
    requires
        is_path_of(path, request.target),
        app.config.order.len() <= usize::MAX,
    ensures
        ({
            let rejected = EventView::Replied { status: Some(401) };
            let first = app.step(
                request,
                Dispatch { at, phase: Phase::AwaitingFirst },
                rejected,
                now_ms,
            );
            let second = app.step(
                request,
                Dispatch { at, phase: Phase::AwaitingRetry },
                rejected,
                now_ms,
            );
            &&& first.app == app
            &&& first.dispatch == (Dispatch { at, phase: Phase::Reloading })
            &&& app.backends[app.config.order[at as int]] matches AuthView::Oauth {
                credentials_file,
                ..
            } ==> first.action == (ActionView::LoadCredentials { file: credentials_file })
            &&& looks_from(app, request, path, at + 1, now_ms, second)
        }),
{
    law_requests_look_for_the_first_backend(app, request, path, at + 1, now_ms);
}

/// Any other reply has its status noted. If the status is one of the configured triggers a failover
/// is counted and the request looks for a later backend; otherwise the reply is relayed, and that is
/// the end of it.
pub proof fn law_what_a_reply_leads_to(
    app: AppView,
    request: RequestView,
    path: Seq<char>,
    dispatch: Dispatch,
    status: u16,
    now_ms: u64,
)
    requires
        is_path_of(path, request.target),
        app.config.order.len() <= usize::MAX,
        dispatch.phase == Phase::AwaitingFirst || dispatch.phase == Phase::AwaitingRetry
            || dispatch.phase == Phase::AwaitingKeyed,
        status != 401 || dispatch.phase == Phase::AwaitingKeyed,
    ensures
        ({
            let name = app.config.order[dispatch.at as int];
            let next = app.step(
                request,
                dispatch,
                EventView::Replied { status: Some(status) },
                now_ms,
            );
            exists|mid: AppView|
                {
                    &&& #[trigger] is_noted(app, name, status, 0, mid)
                    &&& if app.config.triggers.contains(status) {
                        looks_from(mid, request, path, dispatch.at + 1, now_ms, next)
                    } else {
                        &&& next.app == mid
                        &&& next.dispatch == (Dispatch {
                            at: dispatch.at,
                            phase: Phase::Finished,
                        })
                        &&& next.action == ActionView::Relay
                    }
                }
        }),
{
    let name = app.config.order[dispatch.at as int];
    let noted = app.metrics.answered(name, status);
    assert(noted.last_status.dom() =~= app.metrics.last_status.dom());
    if app.config.triggers.contains(status) {
        let mid = AppView { metrics: noted.failed_over(), ..app };
        assert(is_noted(app, name, status, 0, mid));
        law_requests_look_for_the_first_backend(mid, request, path, dispatch.at + 1, now_ms);
    } else {
        let mid = AppView { metrics: noted, ..app };
        assert(is_noted(app, name, status, 0, mid));
    }
}

/// Every status in the configured list of triggers makes the request leave its backend, and no status
/// outside the list does: a reply with it is relayed, and a fault that fires with it is answered.
pub proof fn law_triggers_are_what_is_configured(
    app: AppView,
    request: RequestView,
    path: Seq<char>,
    dispatch: Dispatch,
    status: u16,
    rate: Rate,
    draw: u64,
    now_ms: u64,
)
    requires
        is_path_of(path, request.target),
        app.config.order.len() <= usize::MAX,
        can_be_tried(app, path, dispatch.at as int),
        dispatch.phase == Phase::AwaitingFirst || dispatch.phase == Phase::AwaitingRetry
            || dispatch.phase == Phase::AwaitingKeyed,
        status != 401 || dispatch.phase == Phase::AwaitingKeyed,
        draw < rate.bits,
        rate.bits <= 0x3ff0_0000_0000_0000,
    ensures
        ({
            let replied = app.step(
                request,
                dispatch,
                EventView::Replied { status: Some(status) },
                now_ms,
            );
            let fired = app.step(
                request,
                Dispatch { at: dispatch.at, phase: Phase::Drawing { status, rate } },
                EventView::Drawn { draw },
                now_ms,
            );
            let one_more = (app.metrics.failovers + 1) % 0x1_0000_0000_0000_0000;
            if app.config.triggers.contains(status) {
                &&& !(replied.action is Relay)
                &&& replied.dispatch.at > dispatch.at
                &&& replied.app.metrics.failovers == one_more
                &&& !(fired.action is Relay)
                &&& fired.dispatch.at > dispatch.at
                &&& fired.app.metrics.failovers == one_more
            } else {
                &&& replied.action is Relay
                &&& replied.dispatch.at == dispatch.at
                &&& replied.app.metrics.failovers == app.metrics.failovers
                &&& fired.action is Answer
                &&& fired.dispatch.at == dispatch.at
                &&& fired.app.metrics.failovers == app.metrics.failovers
            }
        }),
{
    law_what_a_reply_leads_to(app, request, path, dispatch, status, now_ms);
    law_what_a_draw_leads_to(app, request, path, dispatch.at, status, rate, draw, now_ms);
}

/// Whatever step leads to it, a request that is sent goes to an address that is a configured one
/// without the slashes at its end, followed by the whole path and query.
pub proof fn law_targets_are_never_cut(
    app: AppView,
    request: RequestView,
    path: Seq<char>,
    dispatch: Dispatch,
    event: EventView,
    now_ms: u64,
)
    requires
        is_path_of(path, request.target),
        app.config.order.len() <= usize::MAX,
        app.fits(request, dispatch),
        expects(dispatch.phase, event),
    ensures
        ({
            let next = app.step(request, dispatch, event, now_ms);
            let i = next.dispatch.at as int;
            next.action is Send ==> can_be_tried(app, path, i) && exists|k: int|
                #[trigger] is_first_named(app.config.backends, app.config.order[i], k)
                    && is_address(
                    app.config.backends[k].base_url,
                    request.target,
                    next.action->url,
                )
        }),
{
    let next = app.step(request, dispatch, event, now_ms);
    let i = next.dispatch.at as int;
    crate::laws::law_sends_are_allowed(app, request, dispatch, event, now_ms);
    crate::laws::law_steps_keep_the_shape(app, request, dispatch, event, now_ms);
    law_paths_end_at_the_query(path, request);
    if next.action is Send {
        law_backends_that_can_be_tried(next.app, path, i);
        law_requests_are_sent_whole(next.app, request, path, i);
        let k = choose|k: int|
            {
                &&& #[trigger] is_first_named(app.config.backends, app.config.order[i], k)
                &&& is_address(
                    app.config.backends[k].base_url,
                    request.target,
                    next.action->url,
                )
                &&& is_sent_for(
                    request.body,
                    app.config.backends[k].model_map,
                    next.action->body,
                )
            };
        assert(is_first_named(app.config.backends, app.config.order[i], k));
        let l = choose|l: int| #[trigger]
            is_first_named(next.app.config.backends, app.config.order[i], l) && lists_path(
                next.app.config.backends[l],
                path,
            );
        assert(is_first_named(app.config.backends, app.config.order[i], l));
        assert(app.backends.dom().contains(app.config.order[i]));
    }
}

/// A request fits a position where its backend can be tried and holds what the request waits for: a
/// key, or a token; where a draw is due either will do.
pub proof fn law_requests_fit_where_they_wait(
    app: AppView,
    request: RequestView,
    path: Seq<char>,
    dispatch: Dispatch,
)
    requires
        is_path_of(path, request.target),
    ensures
        app.fits(request, dispatch) <==> match dispatch.phase {
            Phase::Finished => true,
            Phase::Drawing { .. } => can_be_tried(app, path, dispatch.at as int),
            Phase::AwaitingKeyed => can_be_tried(app, path, dispatch.at as int)
                && app.backends[app.config.order[dispatch.at as int]] is ApiKey,
            _ => can_be_tried(app, path, dispatch.at as int)
                && app.backends[app.config.order[dispatch.at as int]] is Oauth,
        },
{
    law_paths_end_at_the_query(path, request);
    law_backends_that_can_be_tried(app, path, dispatch.at as int);
}

} // verus!
