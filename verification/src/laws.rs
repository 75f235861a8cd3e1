//! What holds of every request, whatever the backends do.

use vstd::prelude::*;

use crate::credentials::CredentialView;
use crate::headers::{forwarded, law_withheld_fields_do_not_matter, same_but_withheld};
use crate::metrics::{next_count, MetricsView};
use crate::proxy::{
    answerable, expects, law_seek_finds_the_first, ActionView, AppView, AuthView, Dispatch,
    EventView, Phase, RequestView, StepView, BAD_GATEWAY, UNAUTHORIZED,
};
use crate::rate::less;

verus! {

/// Whether two backends are the same but for the token or key that they hold.
pub open spec fn same_kind(a: AuthView, b: AuthView) -> bool {
    match (a, b) {
        (AuthView::Oauth { credentials_file: x, .. }, AuthView::Oauth { credentials_file: y, .. }) => x
            == y,
        (AuthView::ApiKey { .. }, AuthView::ApiKey { .. }) => true,
        _ => false,
    }
}

/// Whether a proxy still has the configuration and the backends that it had, whatever became of
/// tokens, keys, fault rules and counters.
pub open spec fn same_shape(before: AppView, after: AppView) -> bool {
    &&& after.config == before.config
    &&& after.backends.dom() == before.backends.dom()
    &&& forall|name: Seq<char>| #[trigger]
        before.backends.contains_key(name) ==> same_kind(
            before.backends[name],
            after.backends[name],
        )
}

/// How many more steps a request can take at its backend.
pub open spec fn phase_rank(phase: Phase) -> nat {
    match phase {
        Phase::Drawing { .. } => 6,
        Phase::Refreshing => 5,
        Phase::AwaitingFirst => 4,
        Phase::Reloading => 3,
        Phase::AwaitingRetry => 2,
        Phase::AwaitingKeyed => 1,
        Phase::Finished => 0,
    }
}

/// A bound on the steps that a request can still take with `backends` names in the failover order.
pub open spec fn steps_left(backends: nat, dispatch: Dispatch) -> int {
    if dispatch.phase == Phase::Finished {
        0
    } else {
        6 * (backends - dispatch.at - 1) + phase_rank(dispatch.phase)
    }
}

/// A step leaves the configuration, the fault rules and the set of backends alone.
pub proof fn law_steps_keep_the_shape(
    app: AppView,
    request: RequestView,
    dispatch: Dispatch,
    event: EventView,
    now_ms: u64,
)
    requires
        app.fits(request, dispatch),
        expects(dispatch.phase, event),
    ensures
        same_shape(app, app.step(request, dispatch, event, now_ms).app),
        app.step(request, dispatch, event, now_ms).app.faults == app.faults,
{
    let after = app.step(request, dispatch, event, now_ms).app;
    assert(after.backends.dom() =~= app.backends.dom());
}

/// What one request does to the proxy never takes from another the backend that it is at.
pub proof fn law_requests_do_not_disturb(
    before: AppView,
    after: AppView,
    request: RequestView,
    dispatch: Dispatch,
)
    requires
        before.fits(request, dispatch),
        same_shape(before, after),
    ensures
        after.fits(request, dispatch),
{
    if dispatch.phase != Phase::Finished {
        let name = before.config.order[dispatch.at as int];
        assert(before.backends.contains_key(name));
        assert(after.backends.dom().contains(name));
    }
}

/// Seeking goes on from where it is told to, and ends with the order.
proof fn lemma_seek_moves_on(app: AppView, request: RequestView, from: int, now_ms: u64)
    requires
        0 <= from,
        app.config.order.len() <= usize::MAX,
    ensures
        ({
            let next = app.seek(request, from, now_ms).dispatch;
            &&& next.phase != Phase::Finished ==> from <= next.at < app.config.order.len()
            &&& next.phase == Phase::Finished ==> next.at == app.config.order.len()
            &&& steps_left(app.config.order.len(), next) <= if from >= app.config.order.len() {
                0
            } else {
                6 * (app.config.order.len() - from)
            }
            &&& app.seek(request, from, now_ms).app.metrics.requests == if next.phase
                != Phase::Finished {
                app.metrics.tried(app.config.order[next.at as int]).requests
            } else {
                app.metrics.requests
            }
        }),
{
    law_seek_finds_the_first(app, request.path(), from);
}

/// Each step brings a request closer to its answer.
pub proof fn law_steps_make_progress(
    app: AppView,
    request: RequestView,
    dispatch: Dispatch,
    event: EventView,
    now_ms: u64,
)
    requires
        app.config.order.len() <= usize::MAX,
        app.fits(request, dispatch),
        expects(dispatch.phase, event),
    ensures
        ({
            let next = app.step(request, dispatch, event, now_ms).dispatch;
            &&& 0 <= steps_left(app.config.order.len(), next) < steps_left(
                app.config.order.len(),
                dispatch,
            )
            &&& next.at >= dispatch.at
        }),
{
    let i = dispatch.at as int;
    assert forall|m: MetricsView| #[trigger]
        (AppView { metrics: m, ..app }).seek(request, i + 1, now_ms).dispatch.at > i && 0
            <= steps_left(
            app.config.order.len(),
            (AppView { metrics: m, ..app }).seek(request, i + 1, now_ms).dispatch,
        ) <= 6 * (app.config.order.len() - i - 1) by {
        lemma_seek_moves_on(AppView { metrics: m, ..app }, request, i + 1, now_ms);
    }
    lemma_seek_moves_on(app, request, i + 1, now_ms);
}

/// A request is answered after at most six steps for each name in the failover order, whatever the
/// backends reply and whatever other requests do to the proxy in between: no longer run of steps
/// exists.
pub proof fn law_every_request_is_answered(
    apps: Seq<AppView>,
    request: RequestView,
    dispatches: Seq<Dispatch>,
    events: Seq<(EventView, u64)>,
    backends: nat,
)
    requires
        apps.len() == events.len(),
        dispatches.len() == events.len() + 1,
        backends <= usize::MAX,
        dispatches[0].phase == Phase::Finished || dispatches[0].at < backends,
        forall|k: int|
            0 <= k < events.len() ==> {
                &&& (#[trigger] apps[k]).config.order.len() == backends
                &&& apps[k].fits(request, dispatches[k])
                &&& expects(dispatches[k].phase, events[k].0)
                &&& dispatches[k + 1] == apps[k].step(
                    request,
                    dispatches[k],
                    events[k].0,
                    events[k].1,
                ).dispatch
            },
    ensures
        events.len() <= 6 * backends,
        events.len() <= steps_left(backends, dispatches[0]) - steps_left(
            backends,
            dispatches[events.len() as int],
        ),
    decreases events.len(),
{
    if events.len() > 0 {
        let n = events.len() - 1;
        let a = apps.drop_last();
        let d = dispatches.drop_last();
        let e = events.drop_last();
        assert forall|k: int| 0 <= k < e.len() implies {
            &&& (#[trigger] a[k]).config.order.len() == backends
            &&& a[k].fits(request, d[k])
            &&& expects(d[k].phase, e[k].0)
            &&& d[k + 1] == a[k].step(request, d[k], e[k].0, e[k].1).dispatch
        } by {
            assert(apps[k] == a[k]);
            assert(apps[k].config.order.len() == backends);
        }
        law_every_request_is_answered(a, request, d, e, backends);
        assert(apps[n].config.order.len() == backends);
        law_steps_make_progress(apps[n], request, dispatches[n], events[n].0, events[n].1);
    }
}

/// Where a request is sent as soon as a backend is found, the backend can be tried, the request
/// carries that backend's secret, and no fault rule is in force for it.
pub proof fn law_seeking_sends_where_allowed(app: AppView, request: RequestView, from: int, now_ms: u64)
    requires
        0 <= from,
        app.config.order.len() <= usize::MAX,
    ensures
        ({
            let next = app.seek(request, from, now_ms);
            let i = next.dispatch.at as int;
            &&& next.action is Send ==> next.app.eligible(request.path(), i) && next.action
                == next.app.send(request, i) && !next.app.faults.contains_key(
                app.config.order[i],
            )
            &&& !(next.action is Relay)
        }),
{
    law_seek_finds_the_first(app, request.path(), from);
}

/// A request is sent only to a backend that is configured and ready and whose allowlist admits the
/// path, under its own address and with its own secret; the beta flag goes along exactly with OAuth
/// tokens.
pub proof fn law_sends_are_allowed(
    app: AppView,
    request: RequestView,
    dispatch: Dispatch,
    event: EventView,
    now_ms: u64,
)
    requires
        app.config.order.len() <= usize::MAX,
        app.fits(request, dispatch),
        expects(dispatch.phase, event),
    ensures
        ({
            let next = app.step(request, dispatch, event, now_ms);
            let i = next.dispatch.at as int;
            next.action is Send ==> {
                &&& next.app.eligible(request.path(), i)
                &&& next.app.backend_at(i)->0.serves(request.path())
                &&& next.action == next.app.send(request, i)
                &&& next.action->authorization == "Bearer "@ + next.app.auth_at(i).secret()
                &&& next.action->oauth_beta <==> next.app.auth_at(i) is Oauth
            }
        }),
{
    let i = dispatch.at as int;
    assert forall|m: MetricsView|
        ({
            let next = #[trigger] (AppView { metrics: m, ..app }).seek(request, i + 1, now_ms);
            next.action is Send ==> next.app.eligible(request.path(), next.dispatch.at as int)
                && next.action == next.app.send(request, next.dispatch.at as int)
        }) by {
        law_seeking_sends_where_allowed(AppView { metrics: m, ..app }, request, i + 1, now_ms);
    }
    law_seeking_sends_where_allowed(app, request, i + 1, now_ms);
}

/// A request that has just come in is answered at once, with 502, exactly where no backend can be
/// tried for its path.
pub proof fn law_no_backend_no_service(app: AppView, request: RequestView, now_ms: u64)
    requires
        app.config.order.len() <= usize::MAX,
    ensures
        app.seek(request, 0, now_ms).action is Answer <==> forall|i: int|
            !app.eligible(request.path(), i),
        app.seek(request, 0, now_ms).action is Answer ==> app.seek(request, 0, now_ms).action == (
        ActionView::Answer { status: BAD_GATEWAY }) && app.seek(request, 0, now_ms).app == app,
{
    law_seek_finds_the_first(app, request.path(), 0);
}

/// A reply is passed on only where its status does not make the proxy go on, and it is then the last
/// status on record of a backend that is counted.
pub proof fn law_relayed_replies_stand(
    app: AppView,
    request: RequestView,
    dispatch: Dispatch,
    event: EventView,
    now_ms: u64,
)
    requires
        app.config.order.len() <= usize::MAX,
        app.fits(request, dispatch),
        expects(dispatch.phase, event),
        app.step(request, dispatch, event, now_ms).action is Relay,
    ensures
        event matches EventView::Replied { status: Some(status) } && !app.triggers_failover(status)
            && (status == UNAUTHORIZED ==> dispatch.phase == Phase::AwaitingKeyed) && (
        app.metrics.last_status.contains_key(app.config.order[dispatch.at as int]) ==> app.step(
            request,
            dispatch,
            event,
            now_ms,
        ).app.metrics.last_status[app.config.order[dispatch.at as int]] == status),
{
    let i = dispatch.at as int;
    assert forall|m: MetricsView|
        !((#[trigger] (AppView { metrics: m, ..app }).seek(request, i + 1, now_ms)).action is Relay) by {
        law_seeking_sends_where_allowed(AppView { metrics: m, ..app }, request, i + 1, now_ms);
    }
    law_seeking_sends_where_allowed(app, request, i + 1, now_ms);
}

/// A reply whose status does not make the proxy go on is passed on, unless it is about the token.
pub proof fn law_standing_replies_are_relayed(
    app: AppView,
    request: RequestView,
    dispatch: Dispatch,
    status: u16,
    now_ms: u64,
)
    requires
        app.fits(request, dispatch),
        expects(dispatch.phase, EventView::Replied { status: Some(status) }),
        !app.triggers_failover(status),
        status != UNAUTHORIZED || dispatch.phase == Phase::AwaitingKeyed,
    ensures
        app.step(
            request,
            dispatch,
            EventView::Replied { status: Some(status) },
            now_ms,
        ).action is Relay,
{
}

/// A fault that fires stands for the backend's reply: the backend is not asked. The client gets the
/// rule's status, or the request goes on to a later backend where that status makes it.
pub proof fn law_injected_faults_shield_the_backend(
    app: AppView,
    request: RequestView,
    dispatch: Dispatch,
    draw: u64,
    now_ms: u64,
)
    requires
        app.config.order.len() <= usize::MAX,
        app.fits(request, dispatch),
        dispatch.phase is Drawing,
        less(draw, dispatch.phase->rate.bits),
    ensures
        ({
            let status = dispatch.phase->status;
            let next = app.step(request, dispatch, EventView::Drawn { draw }, now_ms);
            &&& app.triggers_failover(status) ==> next.dispatch.at > dispatch.at
            &&& !app.triggers_failover(status) ==> next.action == (ActionView::Answer {
                status: answerable(status),
            })
            &&& next.app.metrics.faults_injected == next_count(app.metrics.faults_injected)
            &&& next.app.backends == app.backends
        }),
{
    let i = dispatch.at as int;
    assert forall|m: MetricsView| #[trigger]
        (AppView { metrics: m, ..app }).seek(request, i + 1, now_ms).dispatch.at > i by {
        lemma_seek_moves_on(AppView { metrics: m, ..app }, request, i + 1, now_ms);
    }
}

/// A rule that does not fire leaves no trace: the backend is tried as if there were no rule.
pub proof fn law_spared_requests_go_on(
    app: AppView,
    request: RequestView,
    dispatch: Dispatch,
    draw: u64,
    now_ms: u64,
)
    requires
        app.fits(request, dispatch),
        dispatch.phase is Drawing,
        !less(draw, dispatch.phase->rate.bits),
    ensures
        app.step(request, dispatch, EventView::Drawn { draw }, now_ms) == app.attempt(
            request,
            dispatch.at as int,
            now_ms,
        ),
{
}

/// Whether the event of a step carries a status that makes the proxy go on to the next backend: that
/// of a fault that fires, or of a reply that is not about the token.
pub open spec fn is_failover(app: AppView, dispatch: Dispatch, event: EventView) -> bool {
    match event {
        EventView::Drawn { draw } => less(draw, dispatch.phase->rate.bits) && app.triggers_failover(
            dispatch.phase->status,
        ),
        EventView::Replied { status: Some(status) } => app.triggers_failover(status) && (status
            != UNAUTHORIZED || dispatch.phase == Phase::AwaitingKeyed),
        _ => false,
    }
}

/// Whether the event of a step makes the proxy leave the backend: a status that makes it go on, no
/// reply, or a token that is rejected for the second time.
pub open spec fn is_passed_over(app: AppView, dispatch: Dispatch, event: EventView) -> bool {
    ||| is_failover(app, dispatch, event)
    ||| event == (EventView::Replied { status: None })
    ||| event == (EventView::Replied { status: Some(UNAUTHORIZED) }) && dispatch.phase
        == Phase::AwaitingRetry
}

/// Which backend comes next does not depend on what was counted.
proof fn lemma_counters_do_not_matter(app: AppView, m: MetricsView, path: Seq<char>, from: int)
    ensures
        (AppView { metrics: m, ..app }).next_eligible(path, from) == app.next_eligible(path, from),
    decreases app.config.order.len() - from,
{
    let other = AppView { metrics: m, ..app };
    assert(other.eligible(path, from) == app.eligible(path, from));
    if from < app.config.order.len() && !app.eligible(path, from) {
        lemma_counters_do_not_matter(app, m, path, from + 1);
    }
}

/// Backends are tried in the failover order. A request stays at its backend until it is passed over;
/// it then comes to the next one that can be tried for its path, and is answered 502 where there is
/// none.
pub proof fn law_backends_are_tried_in_order(
    app: AppView,
    request: RequestView,
    dispatch: Dispatch,
    event: EventView,
    now_ms: u64,
)
    requires
        app.config.order.len() <= usize::MAX,
        app.fits(request, dispatch),
        expects(dispatch.phase, event),
    ensures
        ({
            let next = app.step(request, dispatch, event, now_ms);
            if is_passed_over(app, dispatch, event) {
                match app.next_eligible(request.path(), dispatch.at + 1) {
                    Some(i) => next.dispatch.at == i && next.dispatch.phase != Phase::Finished,
                    None => next.action == (ActionView::Answer { status: BAD_GATEWAY }),
                }
            } else {
                next.dispatch.at == dispatch.at
            }
        }),
{
    let from = dispatch.at + 1;
    law_seek_finds_the_first(app, request.path(), from);
    assert forall|m: MetricsView|
        ({
            let next = #[trigger] (AppView { metrics: m, ..app }).seek(request, from, now_ms);
            match app.next_eligible(request.path(), from) {
                Some(i) => next.dispatch.at == i && next.dispatch.phase != Phase::Finished,
                None => next.action == (ActionView::Answer { status: BAD_GATEWAY }),
            }
        }) by {
        lemma_counters_do_not_matter(app, m, request.path(), from);
    }
    assert((AppView { metrics: app.metrics, ..app }) == app);
}

/// Failovers are counted exactly: one for each status that makes the proxy go on, and none for
/// backends that reject the token twice or do not reply.
pub proof fn law_failovers_are_counted(
    app: AppView,
    request: RequestView,
    dispatch: Dispatch,
    event: EventView,
    now_ms: u64,
)
    requires
        app.fits(request, dispatch),
        expects(dispatch.phase, event),
    ensures
        app.step(request, dispatch, event, now_ms).app.metrics.failovers == if is_failover(
            app,
            dispatch,
            event,
        ) {
            next_count(app.metrics.failovers)
        } else {
            app.metrics.failovers
        },
{
}

/// Tries are counted exactly: one for the backend that a step comes to, and none where it stays or
/// ends.
pub proof fn law_tries_are_counted(
    app: AppView,
    request: RequestView,
    dispatch: Dispatch,
    event: EventView,
    now_ms: u64,
)
    requires
        app.config.order.len() <= usize::MAX,
        app.fits(request, dispatch),
        expects(dispatch.phase, event),
    ensures
        ({
            let next = app.step(request, dispatch, event, now_ms);
            next.app.metrics.requests == if next.dispatch.at > dispatch.at && next.dispatch.phase
                != Phase::Finished {
                app.metrics.tried(app.config.order[next.dispatch.at as int]).requests
            } else {
                app.metrics.requests
            }
        }),
{
    let i = dispatch.at as int;
    assert forall|m: MetricsView|
        ({
            let next = #[trigger] (AppView { metrics: m, ..app }).seek(request, i + 1, now_ms);
            &&& next.dispatch.at > i
            &&& next.app.metrics.requests == if next.dispatch.phase != Phase::Finished {
                m.tried(app.config.order[next.dispatch.at as int]).requests
            } else {
                m.requests
            }
        }) by {
        lemma_seek_moves_on(AppView { metrics: m, ..app }, request, i + 1, now_ms);
    }
    lemma_seek_moves_on(app, request, i + 1, now_ms);
}

/// A step changes the token of the backend that the request is at, if any.
pub proof fn law_other_tokens_stay(
    app: AppView,
    request: RequestView,
    dispatch: Dispatch,
    event: EventView,
    now_ms: u64,
    name: Seq<char>,
)
    requires
        app.fits(request, dispatch),
        expects(dispatch.phase, event),
        app.backends.contains_key(name),
        name != app.config.order[dispatch.at as int] || !(event is Loaded),
    ensures
        app.step(request, dispatch, event, now_ms).app.backends[name] == app.backends[name],
{
}

/// A credentials file that cannot be loaded costs nothing: the token that there was is used.
pub proof fn law_failed_reload_keeps_the_token(
    app: AppView,
    request: RequestView,
    dispatch: Dispatch,
    now_ms: u64,
)
    requires
        app.fits(request, dispatch),
        dispatch.phase == Phase::Refreshing || dispatch.phase == Phase::Reloading,
    ensures
        ({
            let next = app.step(request, dispatch, EventView::Loaded { loaded: None }, now_ms);
            &&& next.app.backends == app.backends
            &&& next.action == app.send(request, dispatch.at as int)
        }),
{
    let next = app.step(request, dispatch, EventView::Loaded { loaded: None }, now_ms);
    assert(next.app.backends =~= app.backends);
    assert(next.app == app);
}

/// A token that is rejected is loaded again once: the request is sent again with the token that is
/// then in force, and a second rejection makes the proxy go on to a later backend without counting
/// a failover.
pub proof fn law_rejected_tokens_are_retried_once(
    app: AppView,
    request: RequestView,
    dispatch: Dispatch,
    loaded: Option<CredentialView>,
    times: (u64, u64, u64),
)
    requires
        app.config.order.len() <= usize::MAX,
        app.fits(request, dispatch),
        dispatch.phase == Phase::AwaitingFirst,
    ensures
        ({
            let i = dispatch.at as int;
            let rejected = EventView::Replied { status: Some(UNAUTHORIZED) };
            let first = app.step(request, dispatch, rejected, times.0);
            let second = first.app.step(
                request,
                first.dispatch,
                EventView::Loaded { loaded },
                times.1,
            );
            let third = second.app.step(request, second.dispatch, rejected, times.2);
            &&& first.action == (ActionView::LoadCredentials {
                file: app.auth_at(i)->credentials_file,
            })
            &&& second.dispatch.at == dispatch.at
            &&& second.action is Send
            &&& second.action->authorization == "Bearer "@ + match loaded {
                Some(credential) => credential.access_token,
                None => app.auth_at(i).secret(),
            }
            &&& third.dispatch.at > dispatch.at
            &&& third.app.metrics.failovers == app.metrics.failovers
        }),
{
    let rejected = EventView::Replied { status: Some(UNAUTHORIZED) };
    let first = app.step(request, dispatch, rejected, times.0);
    let second = first.app.step(request, first.dispatch, EventView::Loaded { loaded }, times.1);
    lemma_seek_moves_on(second.app, request, dispatch.at + 1, times.2);
}

/// A token that has expired is not sent before the credentials file was tried.
pub proof fn law_expired_tokens_are_refreshed_first(
    app: AppView,
    request: RequestView,
    i: int,
    now_ms: u64,
)
    requires
        app.eligible(request.path(), i),
        app.auth_at(i) is Oauth,
    ensures
        app.attempt(request, i, now_ms).action is Send <==> !app.auth_at(i)->token.expired(now_ms),
        app.auth_at(i)->token.expired(now_ms) ==> app.attempt(request, i, now_ms).action == (
        ActionView::LoadCredentials { file: app.auth_at(i)->credentials_file }),
{
}

/// A request of a client with its header fields.
pub struct ClientView {
    pub request: RequestView,
    pub fields: Map<Seq<char>, Seq<Seq<u8>>>,
}

/// The steps of a request that comes in at `now_ms`: the first, and one for each event and the time
/// at which it happens.
pub open spec fn run(
    app: AppView,
    client: ClientView,
    now_ms: u64,
    events: Seq<(EventView, u64)>,
) -> Seq<StepView>
    decreases events.len(),
{
    if events.len() == 0 {
        seq![app.seek(client.request, 0, now_ms)]
    } else {
        let done = run(app, client, now_ms, events.drop_last());
        let here = done.last();
        let (event, at_ms) = events.last();
        done.push(here.app.step(client.request, here.dispatch, event, at_ms))
    }
}

/// What leaves for a backend with a step, if anything: the request and the fields that go with it.
pub open spec fn outgoing(client: ClientView, step: StepView) -> Option<
    (ActionView, Map<Seq<char>, Seq<Seq<u8>>>),
> {
    if step.action is Send {
        Some((step.action, forwarded(client.fields)))
    } else {
        None
    }
}

/// What a client authenticates with makes no difference: two requests that differ in withheld fields
/// alone run through the same steps, on the same events, and the same goes out to the backends.
pub proof fn law_client_credentials_do_not_matter(
    app: AppView,
    a: ClientView,
    b: ClientView,
    now_ms: u64,
    events: Seq<(EventView, u64)>,
)
    requires
        a.request == b.request,
        same_but_withheld(a.fields, b.fields),
    ensures
        run(app, a, now_ms, events) == run(app, b, now_ms, events),
        forall|k: int|
            0 <= k <= events.len() ==> outgoing(a, #[trigger] run(app, a, now_ms, events)[k])
                == outgoing(b, run(app, b, now_ms, events)[k]),
    decreases events.len(),
{
    law_withheld_fields_do_not_matter(a.fields, b.fields);
    if events.len() > 0 {
        law_client_credentials_do_not_matter(app, a, b, now_ms, events.drop_last());
    }
}

} // verus!
