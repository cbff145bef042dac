//! What holds of the operations on instances, one after another.
use vstd::prelude::*;

use crate::api;
use crate::config;
use crate::instances;
use crate::session;
use crate::watch;

verus! {

/// What the manager is asked to launch is within the policy, so that every address
/// of every network it offers is private; it keeps its name, which is not in use.
pub proof fn law_only_safe_instances_are_launched(
    b: session::BridgeView,
    event: session::RunEvent,
    cfg: config::NetworkConfig,
    launch: session::Launch,
)
    requires
        event == session::RunEvent::Parsed(Ok(cfg)),
        session::run_verdict(b, event) is Perform,
        session::is_launch(event, launch),
    ensures
        config::is_safe(launch.config@),
        launch.config@.inst_name == cfg@.inst_name,
        !b.instances.contains_key(launch.config@.inst_name),
{
    config::law_sanitized_is_safe(cfg@, launch.config@);
}

/// Every network of a parsed configuration is accounted for: a launch offers it, or
/// it is named for the log, and never both.
pub proof fn law_dropped_networks_are_named(
    event: session::RunEvent,
    cfg: config::NetworkConfig,
    launch: session::Launch,
    p: config::ProxyCidr,
)
    requires
        event == session::RunEvent::Parsed(Ok(cfg)),
        session::is_launch(event, launch),
        cfg@.proxy_cidrs.contains(p),
    ensures
        launch.config@.proxy_cidrs.contains(p) <==> !session::dropped_by(event).contains(p),
{
    config::law_every_proxy_is_decided(cfg@.proxy_cidrs, p);
}

/// While an instance runs, no other of its name is started, and the refusal
/// leaves the instances alone.
pub proof fn law_a_running_name_is_refused(
    b: session::BridgeView,
    name: String,
    id: u128,
    cfg: config::NetworkConfig,
)
    requires
        cfg@.inst_name == name@,
    ensures
        ({
            let running = session::after_run(
                b,
                session::RunEvent::Launched { name, result: Ok(id) },
            );
            let again = session::RunEvent::Parsed(Ok(cfg));
            &&& session::run_verdict(running, again) == session::Verdict::Failure(
                "instance already exists"@,
            )
            &&& session::after_run(running, again).instances == running.instances
        }),
{
}

/// A start that fails leaves the instances alone and is the latest error; one
/// that does not fail leaves the latest error alone.
pub proof fn law_failed_start(b: session::BridgeView, event: session::RunEvent)
    ensures
        match session::run_verdict(b, event) {
            session::Verdict::Failure(msg) => {
                &&& session::after_run(b, event).instances == b.instances
                &&& session::after_run(b, event).error == msg
            },
            _ => session::after_run(b, event).error == b.error,
        },
{
}

/// A stop that fails leaves the instances alone and is the latest error; one that
/// does not fail leaves the latest error alone.
pub proof fn law_failed_stop(b: session::BridgeView, event: session::StopEvent)
    ensures
        match session::stop_verdict(event) {
            session::Verdict::Failure(msg) => {
                &&& session::after_stop(b, event).instances == b.instances
                &&& session::after_stop(b, event).error == msg
            },
            _ => session::after_stop(b, event).error == b.error,
        },
{
}

/// Keeping some instances, where it fails, leaves all of them alone and is the
/// latest error; where it does not fail, the latest error stays.
pub proof fn law_failed_retain(
    b: session::BridgeView,
    names: Seq<Seq<char>>,
    event: session::RetainEvent,
)
    ensures
        match session::retain_verdict(event) {
            session::Verdict::Failure(msg) => {
                &&& session::after_retain(b, names, event).instances == b.instances
                &&& session::after_retain(b, names, event).error == msg
            },
            _ => session::after_retain(b, names, event).error == b.error,
        },
{
}

/// Handing over a tunnel device never touches the instances; where it fails, that
/// is the latest error.
pub proof fn law_tunnel_device_leaves_instances(
    b: session::BridgeView,
    event: session::TunEvent,
)
    ensures
        session::after_tun(b, event).instances == b.instances,
        session::after_tun(b, event).stop_requested == b.stop_requested,
        session::after_tun(b, event).error == match session::tun_verdict(b, event) {
            session::Verdict::Failure(msg) => msg,
            _ => b.error,
        },
{
}

/// After a stop no instance runs, the session is over, a tunnel device finds no
/// instance, and any name can be started.
pub proof fn law_stop_ends_everything(
    b: session::BridgeView,
    cfg: config::NetworkConfig,
)
    ensures
        ({
            let asked = session::after_stop(b, session::StopEvent::Requested);
            let stopped = session::after_stop(
                asked,
                session::StopEvent::Ended(Ok(())),
            );
            &&& watch::session_over(asked)
            &&& watch::session_over(stopped)
            &&& stopped.instances == instances::no_instances()
            &&& session::tun_verdict(stopped, session::TunEvent::Requested)
                == session::Verdict::Failure("no running instance"@)
            &&& session::run_verdict(stopped, session::RunEvent::Parsed(Ok(cfg)))
                is Perform
        }),
{
}

/// A start takes an earlier request to stop back: once the instance is launched
/// the session is not over, and a tunnel device finds an instance.
pub proof fn law_start_begins_a_session(
    b: session::BridgeView,
    cfg: config::NetworkConfig,
    name: String,
    id: u128,
)
    requires
        session::run_verdict(b, session::RunEvent::Parsed(Ok(cfg))) is Perform,
    ensures
        ({
            let parsed = session::after_run(b, session::RunEvent::Parsed(Ok(cfg)));
            let running = session::after_run(
                parsed,
                session::RunEvent::Launched { name, result: Ok(id) },
            );
            &&& running.instances == b.instances.insert(name@, id)
            &&& !watch::session_over(running)
            &&& session::tun_verdict(running, session::TunEvent::Requested)
                is Perform
        }),
{
    let parsed = session::after_run(b, session::RunEvent::Parsed(Ok(cfg)));
    assert(parsed.instances.insert(name@, id).contains_key(name@));
    assert(!instances::no_instances().contains_key(name@));
}

/// The tunnel device goes to the one instance that runs.
pub proof fn law_tunnel_device_goes_to_the_one_instance(
    b: session::BridgeView,
    name: Seq<char>,
    id: u128,
    fd: i32,
    request: session::TunRequest,
)
    requires
        b.instances == instances::no_instances().insert(name, id),
        session::is_tun_request(b, fd, request),
    ensures
        request.id == id,
        request.fd == fd,
{
}

/// To keep no instance is what a stop asks of the manager, and leaves the table
/// as a stop leaves it.
pub proof fn law_keeping_none_is_stopping(b: session::BridgeView)
    ensures
        ({
            let none = Seq::<Seq<char>>::empty();
            &&& instances::ids_of(b.instances, none) == Seq::<u128>::empty()
            &&& session::after_retain(
                b,
                none,
                session::RetainEvent::Ended(Ok(())),
            ).instances == session::after_stop(
                b,
                session::StopEvent::Ended(Ok(())),
            ).instances
        }),
{
    let none = Seq::<Seq<char>>::empty();
    assert(b.instances.restrict(none.to_set()) =~= instances::no_instances());
}

/// Manager and table agree on what is kept: the ids that the manager is asked to
/// keep are those of the instances that stay in the table.
pub proof fn law_manager_and_table_keep_the_same(
    b: session::BridgeView,
    names: Seq<Seq<char>>,
    id: u128,
)
    ensures
        instances::ids_of(b.instances, names).contains(id)
            <==> session::after_retain(
            b,
            names,
            session::RetainEvent::Ended(Ok(())),
        ).instances.contains_value(id),
{
    lemma_ids_of(b.instances, names, id);
    let left = b.instances.restrict(names.to_set());
    if instances::ids_of(b.instances, names).contains(id) {
        let n = choose|n: int|
            0 <= n < names.len() && b.instances.contains_key(#[trigger] names[n])
                && b.instances[names[n]] == id;
        assert(names.to_set().contains(names[n]));
        assert(left.contains_key(names[n]) && left[names[n]] == id);
    }
    if left.contains_value(id) {
        let name = choose|name: Seq<char>| #[trigger] left.contains_key(name) && left[name] == id;
        assert(names.to_set().contains(name));
        let n = choose|n: int| 0 <= n < names.len() && names[n] == name;
        assert(b.instances.contains_key(names[n]) && b.instances[names[n]] == id);
    }
}

/// To keep instances twice by the same names is to keep them once.
pub proof fn law_keeping_twice_is_keeping_once(
    b: session::BridgeView,
    names: Seq<Seq<char>>,
)
    ensures
        ({
            let ended = session::RetainEvent::Ended(Ok(()));
            let once = session::after_retain(b, names, ended);
            session::after_retain(once, names, ended) == once
        }),
{
    let left = b.instances.restrict(names.to_set());
    assert(left.restrict(names.to_set()) =~= left);
}

/// Something that happens to the state of the front end: an event of one of the
/// operations on instances, or an error that any operation records.
pub enum Happening {
    Run(session::RunEvent),
    Stop(session::StopEvent),
    Retain(Seq<Seq<char>>, session::RetainEvent),
    Tun(session::TunEvent),
    Failed(Seq<char>),
}

/// The state after that has happened.
pub open spec fn after(b: session::BridgeView, h: Happening) -> session::BridgeView {
    match h {
        Happening::Run(event) => session::after_run(b, event),
        Happening::Stop(event) => session::after_stop(b, event),
        Happening::Retain(names, event) => session::after_retain(b, names, event),
        Happening::Tun(event) => session::after_tun(b, event),
        Happening::Failed(msg) => session::with_error(b, msg),
    }
}

/// The state after all of that has happened, in that order.
pub open spec fn after_all(b: session::BridgeView, hs: Seq<Happening>) -> session::BridgeView
    decreases hs.len(),
{
    if hs.len() == 0 {
        b
    } else {
        after(after_all(b, hs.drop_last()), hs.last())
    }
}

/// A stop: the instances are asked to stop, or a session that was not over is over.
pub open spec fn is_stop(b: session::BridgeView, h: Happening) -> bool {
    ||| h == Happening::Stop(session::StopEvent::Requested)
    ||| !watch::session_over(b) && watch::session_over(after(b, h))
}

/// Whatever happens, no stop is forgotten.
pub proof fn law_stops_are_not_forgotten(b: session::BridgeView, hs: Seq<Happening>)
    ensures
        b.stops <= after_all(b, hs).stops,
    decreases hs.len(),
{
    if hs.len() > 0 {
        law_stops_are_not_forgotten(b, hs.drop_last());
    }
}

/// Every stop counts.
pub proof fn law_every_stop_counts(b: session::BridgeView, h: Happening)
    requires
        is_stop(b, h),
    ensures
        after(b, h).stops == session::one_more(b.stops),
{
    if let Happening::Run(session::RunEvent::Launched { name, result: Ok(id) }) = h {
        assert(after(b, h).instances.contains_key(name@));
        assert(!instances::no_instances().contains_key(name@));
    }
}

/// Every stop after the registration of the callback for the end is reported, and
/// the callback is called no more than once. Whatever has happened before the stop,
/// and whatever is started between it and the look at step `m`, the callback has
/// been called by then: at that look, if not at one before.
pub proof fn law_every_stop_is_reported_once(
    registered: session::BridgeView,
    earlier: Seq<Happening>,
    stop: Happening,
    later: Seq<Happening>,
    states: Seq<session::BridgeView>,
    m: int,
)
    requires
        registered.stops < u64::MAX,
        is_stop(after_all(registered, earlier), stop),
        1 <= m < states.len(),
        states[m] == after_all(after(after_all(registered, earlier), stop), later),
    ensures
        ({
            let seen = registered.stops;
            let fires = |n: int|
                watch::stop_action(seen, states.take(n)) == watch::WatchAction::Fire;
            &&& watch::never_over(seen, states, m) ==> fires(m + 1)
            &&& exists|n: int| 1 < n <= m + 1 && #[trigger] fires(n)
            &&& forall|n: int, k: int|
                0 < n <= states.len() && 0 < k <= states.len() && #[trigger] fires(n)
                    && #[trigger] fires(k) ==> n == k
        }),
{
    let seen = registered.stops;
    let before = after_all(registered, earlier);
    law_stops_are_not_forgotten(registered, earlier);
    law_every_stop_counts(before, stop);
    law_stops_are_not_forgotten(after(before, stop), later);
    assert(watch::over_since(states[m], seen));
    let fires = |n: int| watch::stop_action(seen, states.take(n)) == watch::WatchAction::Fire;
    let first = first_over(seen, states, 1);
    lemma_first_over(seen, states, 1, m);
    assert forall|n: int| 0 < n <= states.len() implies (#[trigger] fires(n) <==> n == first
        + 1) by {
        let part = states.take(n);
        assert(forall|i: int| 0 <= i < n ==> #[trigger] part[i] == states[i]);
        watch::law_stop_callback_fires_once(seen, part);
        if n <= first + 1 {
            assert(watch::never_over(seen, part, n - 1));
        } else {
            assert(watch::over_since(part[first], seen));
        }
        if n < first + 1 && n > 1 {
            assert(!watch::over_since(states[n - 1], seen));
        }
    }
    assert(fires(first + 1));
    if watch::never_over(seen, states, m) {
        assert(first == m);
    }
}

/// The first step from `from` on at which a look finds the session over or a stop.
spec fn first_over(seen: u64, states: Seq<session::BridgeView>, from: int) -> int
    decreases states.len() - from,
{
    if from >= states.len() || watch::over_since(states[from], seen) {
        from
    } else {
        first_over(seen, states, from + 1)
    }
}

proof fn lemma_first_over(seen: u64, states: Seq<session::BridgeView>, from: int, m: int)
    requires
        0 <= from <= m < states.len(),
        watch::over_since(states[m], seen),
    ensures
        from <= first_over(seen, states, from) <= m,
        watch::over_since(states[first_over(seen, states, from)], seen),
        forall|i: int|
            from <= i < first_over(seen, states, from) ==> !watch::over_since(
                #[trigger] states[i],
                seen,
            ),
    decreases m - from,
{
    if !watch::over_since(states[from], seen) {
        lemma_first_over(seen, states, from + 1, m);
    }
}

proof fn lemma_ids_of(table: Map<Seq<char>, u128>, names: Seq<Seq<char>>, id: u128)
    ensures
        instances::ids_of(table, names).contains(id) <==> exists|n: int|
            0 <= n < names.len() && table.contains_key(#[trigger] names[n]) && table[names[n]]
                == id,
    decreases names.len(),
{
    if names.len() > 0 {
        let front = names.drop_last();
        let ids = instances::ids_of(table, front);
        lemma_ids_of(table, front, id);
        let all = instances::ids_of(table, names);
        assert(forall|n: int| 0 <= n < front.len() ==> #[trigger] front[n] == names[n]);
        let here = table.contains_key(names.last()) && table[names.last()] == id;
        if ids.contains(id) {
            let k = choose|k: int| 0 <= k < ids.len() && ids[k] == id;
            assert(all[k] == id);
            let n = choose|n: int|
                0 <= n < front.len() && table.contains_key(#[trigger] front[n]) && table[front[n]]
                    == id;
            assert(names[n] == front[n]);
        }
        if here {
            assert(all[ids.len() as int] == id);
            assert(names[names.len() - 1] == names.last());
        }
        if all.contains(id) && !here {
            let k = choose|k: int| 0 <= k < all.len() && all[k] == id;
            assert(ids[k] == id);
        }
        if exists|n: int|
            0 <= n < names.len() && table.contains_key(#[trigger] names[n]) && table[names[n]]
                == id {
            let n = choose|n: int|
                0 <= n < names.len() && table.contains_key(#[trigger] names[n]) && table[names[n]]
                    == id;
            if n < front.len() {
                assert(front[n] == names[n]);
            }
        }
    }
}

/// Any name that is not in use can be started, whatever else runs: the manager is
/// asked to launch it. Nothing changes by that but that an earlier request to stop
/// is taken back.
pub proof fn law_a_fresh_name_is_launched(b: session::BridgeView, cfg: config::NetworkConfig)
    requires
        !b.instances.contains_key(cfg.inst_name@),
    ensures
        ({
            let event = session::RunEvent::Parsed(Ok(cfg));
            let next = session::after_run(b, event);
            &&& session::run_verdict(b, event) is Perform
            &&& next.instances == b.instances
            &&& next.error == b.error
            &&& !next.stop_requested
            &&& next.stops == b.stops
        }),
{
}

/// A name in use is refused, with the error that says so, whoever started it. The
/// request to stop is taken back all the same, and nothing else changes.
pub proof fn law_a_name_in_use_is_refused(b: session::BridgeView, cfg: config::NetworkConfig)
    requires
        b.instances.contains_key(cfg.inst_name@),
    ensures
        ({
            let event = session::RunEvent::Parsed(Ok(cfg));
            let next = session::after_run(b, event);
            &&& session::run_verdict(b, event) == session::Verdict::Failure(
                "instance already exists"@,
            )
            &&& next.instances == b.instances
            &&& next.error == "instance already exists"@
            &&& !next.stop_requested
            &&& next.stops == b.stops
        }),
{
}

/// A configuration that cannot be parsed is refused with the reason, and nothing but
/// the latest error changes.
pub proof fn law_an_unparsed_configuration_is_refused(b: session::BridgeView, reason: String)
    ensures
        ({
            let event = session::RunEvent::Parsed(Err(reason));
            let next = session::after_run(b, event);
            let msg = "failed to parse config: "@ + reason@;
            &&& session::run_verdict(b, event) == session::Verdict::Failure(msg)
            &&& next.instances == b.instances
            &&& next.error == msg
            &&& next.stop_requested == b.stop_requested
            &&& next.stops == b.stops
        }),
{
}

/// What the manager has launched runs under its name and id, and the others run on as
/// before; what it could not launch is reported with the reason, and only the latest
/// error changes.
pub proof fn law_outcome_of_a_launch(
    b: session::BridgeView,
    name: String,
    id: u128,
    reason: String,
    other: Seq<char>,
)
    ensures
        ({
            let launched = session::RunEvent::Launched { name, result: Ok(id) };
            let next = session::after_run(b, launched);
            &&& session::run_verdict(b, launched) is Success
            &&& next.instances.contains_key(name@) && next.instances[name@] == id
            &&& other != name@ ==> {
                &&& next.instances.contains_key(other) <==> b.instances.contains_key(other)
                &&& next.instances[other] == b.instances[other]
            }
            &&& next.error == b.error
            &&& next.stop_requested == b.stop_requested
            &&& next.stops == b.stops
        }),
        ({
            let failed = session::RunEvent::Launched { name, result: Err(reason) };
            let next = session::after_run(b, failed);
            let msg = "failed to start instance: "@ + reason@;
            &&& session::run_verdict(b, failed) == session::Verdict::Failure(msg)
            &&& next.instances == b.instances
            &&& next.error == msg
            &&& next.stop_requested == b.stop_requested
            &&& next.stops == b.stops
        }),
{
}

/// What is launched is the parsed configuration as the policy leaves it, and nothing is
/// launched on any other event. The networks named for the log are those that hold an
/// address that is not private, in their order; no other event names any.
pub proof fn law_launch_is_of_the_parsed_configuration(
    event: session::RunEvent,
    cfg: config::NetworkConfig,
    launch: session::Launch,
)
    ensures
        event == session::RunEvent::Parsed(Ok(cfg)) ==> {
            &&& session::is_launch(event, launch) <==> config::is_sanitized(
                cfg@,
                launch.config@,
            )
            &&& session::dropped_by(event) == cfg.proxy_cidrs@.filter(
                |p: config::ProxyCidr|
                    exists|n: int| #[trigger] config::in_network(n, p.cidr)
                        && !config::is_private_number(n),
            )
        },
        !(event matches session::RunEvent::Parsed(Ok(_))) ==> {
            &&& !session::is_launch(event, launch)
            &&& session::dropped_by(event).len() == 0
        },
{
    let named = |p: config::ProxyCidr|
        exists|n: int| #[trigger] config::in_network(n, p.cidr) && !config::is_private_number(n);
    assert forall|p: config::ProxyCidr| #[trigger] named(p) == !config::is_private_proxy(p) by {}
    assert((|p: config::ProxyCidr| !config::is_private_proxy(p)) =~= named);
}

/// A request to stop goes to the manager, stands, and counts; nothing else changes by
/// it.
pub proof fn law_a_request_to_stop(b: session::BridgeView)
    ensures
        ({
            let event = session::StopEvent::Requested;
            let next = session::after_stop(b, event);
            &&& session::stop_verdict(event) is Perform
            &&& next.stop_requested
            &&& b.stops < u64::MAX ==> next.stops == b.stops + 1
            &&& b.stops == u64::MAX ==> next.stops == b.stops
            &&& next.instances == b.instances
            &&& next.error == b.error
        }),
{
}

/// When the manager has ended the instances, none runs. That counts if one ran, and
/// does not if none did. What the manager could not end is reported with the reason,
/// and only the latest error changes.
pub proof fn law_outcome_of_a_stop(b: session::BridgeView, name: Seq<char>, reason: String)
    ensures
        ({
            let ended = session::StopEvent::Ended(Ok(()));
            let next = session::after_stop(b, ended);
            &&& session::stop_verdict(ended) is Success
            &&& !next.instances.contains_key(name)
            &&& b.instances.contains_key(name) && b.stops < u64::MAX ==> next.stops == b.stops + 1
            &&& (forall|n: Seq<char>| !#[trigger] b.instances.contains_key(n)) ==> next.stops
                == b.stops
            &&& next.stop_requested == b.stop_requested
            &&& next.error == b.error
        }),
        ({
            let failed = session::StopEvent::Ended(Err(reason));
            let next = session::after_stop(b, failed);
            let msg = "failed to stop instances: "@ + reason@;
            &&& session::stop_verdict(failed) == session::Verdict::Failure(msg)
            &&& next.instances == b.instances
            &&& next.error == msg
            &&& next.stop_requested == b.stop_requested
            &&& next.stops == b.stops
        }),
{
    instances::law_nothing_runs(b.instances);
    instances::law_nothing_runs(instances::no_instances());
}

/// To keep instances is asked of the manager before anything changes. When it has ended
/// the others, exactly those run on that ran and are named, with the ids that they
/// had. What it could not do is reported with the reason, and only the latest error
/// changes.
pub proof fn law_outcome_of_keeping(
    b: session::BridgeView,
    names: Seq<Seq<char>>,
    name: Seq<char>,
    reason: String,
)
    ensures
        session::retain_verdict(session::RetainEvent::Requested) is Perform,
        session::after_retain(b, names, session::RetainEvent::Requested) == b,
        ({
            let ended = session::RetainEvent::Ended(Ok(()));
            let next = session::after_retain(b, names, ended);
            &&& session::retain_verdict(ended) is Success
            &&& next.instances.contains_key(name) <==> b.instances.contains_key(name)
                && names.contains(name)
            &&& next.instances.contains_key(name) ==> next.instances[name] == b.instances[name]
            &&& next.instances.contains_key(name) ==> next.stops == b.stops
            &&& next.stop_requested == b.stop_requested
            &&& next.error == b.error
        }),
        ({
            let failed = session::RetainEvent::Ended(Err(reason));
            let next = session::after_retain(b, names, failed);
            let msg = "failed to retain instances: "@ + reason@;
            &&& session::retain_verdict(failed) == session::Verdict::Failure(msg)
            &&& next.instances == b.instances
            &&& next.error == msg
            &&& next.stop_requested == b.stop_requested
            &&& next.stops == b.stops
        }),
{
    instances::law_nothing_runs(session::after_retain(
        b,
        names,
        session::RetainEvent::Ended(Ok(())),
    ).instances);
    if names.contains(name) {
        assert(names.to_set().contains(name));
    }
    if names.to_set().contains(name) {
        assert(names.contains(name));
    }
}

/// Keeping none of the instances that run counts as a stop, and keeping none where none
/// runs does not.
pub proof fn law_keeping_none_that_runs_counts(
    b: session::BridgeView,
    names: Seq<Seq<char>>,
    running: Seq<char>,
)
    requires
        forall|n: Seq<char>| #[trigger] names.contains(n) ==> !b.instances.contains_key(n),
    ensures
        ({
            let next = session::after_retain(b, names, session::RetainEvent::Ended(Ok(())));
            &&& b.instances.contains_key(running) && b.stops < u64::MAX ==> next.stops == b.stops
                + 1
            &&& (forall|n: Seq<char>| !#[trigger] b.instances.contains_key(n)) ==> next.stops
                == b.stops
        }),
{
    let left = b.instances.restrict(names.to_set());
    assert forall|n: Seq<char>| !#[trigger] left.contains_key(n) by {
        if left.contains_key(n) {
            assert(names.to_set().contains(n));
            assert(names.contains(n));
        }
    }
    instances::law_nothing_runs(left);
    instances::law_nothing_runs(b.instances);
}

/// A tunnel device is handed over exactly if some instance runs, to one that does, and it
/// is the device that was given. Without one the request is refused, with the error that
/// says so; a device that the manager refuses is reported with the reason.
pub proof fn law_tunnel_device_finds_a_running_instance(
    b: session::BridgeView,
    name: Seq<char>,
    fd: i32,
    request: session::TunRequest,
    reason: String,
)
    ensures
        b.instances.contains_key(name) ==> session::tun_verdict(
            b,
            session::TunEvent::Requested,
        ) is Perform,
        (forall|n: Seq<char>| !#[trigger] b.instances.contains_key(n)) ==> session::tun_verdict(
            b,
            session::TunEvent::Requested,
        ) == session::Verdict::Failure("no running instance"@),
        session::is_tun_request(b, fd, request) <==> {
            &&& request.fd == fd
            &&& exists|n: Seq<char>| #[trigger]
                b.instances.contains_key(n) && b.instances[n] == request.id
        },
        session::tun_verdict(b, session::TunEvent::Applied(Ok(()))) is Success,
        session::tun_verdict(b, session::TunEvent::Applied(Err(reason)))
            == session::Verdict::Failure("failed to set tun fd: "@ + reason@),
{
    instances::law_nothing_runs(b.instances);
    if b.instances.contains_value(request.id) {
        let n = choose|n: Seq<char>| #[trigger]
            b.instances.dom().contains(n) && b.instances[n] == request.id;
        assert(b.instances.contains_key(n) && b.instances[n] == request.id);
    }
    if exists|n: Seq<char>| #[trigger]
        b.instances.contains_key(n) && b.instances[n] == request.id {
        let n = choose|n: Seq<char>| #[trigger]
            b.instances.contains_key(n) && b.instances[n] == request.id;
        assert(b.instances.dom().contains(n) && b.instances[n] == request.id);
    }
}

/// Handing over a tunnel device, and recording an error, change nothing but the latest
/// error.
pub proof fn law_errors_change_nothing_else(
    b: session::BridgeView,
    msg: Seq<char>,
    event: session::TunEvent,
)
    ensures
        ({
            let next = session::with_error(b, msg);
            &&& next.error == msg
            &&& next.instances == b.instances
            &&& next.stop_requested == b.stop_requested
            &&& next.stops == b.stops
        }),
        ({
            let next = session::after_tun(b, event);
            &&& next.instances == b.instances
            &&& next.stop_requested == b.stop_requested
            &&& next.stops == b.stops
        }),
{
}

/// The step that an operation answers with is what was decided: something to perform, a
/// success, or a failure with that very message; and to the user interface a success is
/// `true` and a failure `false`.
pub proof fn law_step_is_what_was_decided<A>(
    step: session::Step<A, Result<(), String>>,
    answer: session::Step<A, bool>,
    verdict: session::Verdict,
)
    ensures
        session::is_step(step, verdict) <==> match step {
            session::Step::Perform(_) => verdict is Perform,
            session::Step::Done(Ok(_)) => verdict is Success,
            session::Step::Done(Err(text)) => verdict == session::Verdict::Failure(text@),
        },
        api::is_answer(answer, verdict) <==> match answer {
            session::Step::Perform(_) => verdict is Perform,
            session::Step::Done(ok) => if ok {
                verdict is Success
            } else {
                verdict is Failure
            },
        },
{
}

/// The contents of the state are those of its parts.
pub proof fn law_state_by_part(bridge: session::Bridge)
    ensures
        bridge@.instances == bridge.instances@,
        bridge@.error == bridge.error@,
        bridge@.stop_requested == bridge.stop_requested,
        bridge@.stops == bridge.stops,
{
}

/// A setting of the logger that is given replaces the one before; one that is not given
/// leaves it.
pub proof fn law_given_settings_replace(
    settings: session::LogSettings,
    given: String,
    before: Option<Seq<char>>,
)
    ensures
        session::given_or(session::text_view(Some(given)), before) == Some(given@),
        session::given_or(session::text_view(None), before) == before,
        settings@.path == session::text_view(settings.path),
        settings@.level == session::text_view(settings.level),
        settings@.subsystem == session::text_view(settings.subsystem),
{
}

/// The session is over exactly if the instances were asked to stop or no name runs; a
/// watch that has seen fewer stops, or more, takes it for over as well.
pub proof fn law_session_is_over(b: session::BridgeView, seen: u64)
    ensures
        watch::session_over(b) <==> b.stop_requested || forall|n: Seq<char>|
            !#[trigger] b.instances.contains_key(n),
        watch::over_since(b, seen) <==> watch::session_over(b) || b.stops != seen,
{
    instances::law_nothing_runs(b.instances);
}

} // verus!
