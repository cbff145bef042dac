//! What the front end decides about network instances: when one may start, what
//! the instance manager is asked to do, and what is reported.
//!
//! The instance manager itself is reached by the caller. Each operation takes an
//! event, changes the state, and answers with a step: something that the manager
//! is to do, whose outcome is the next event, or the end of the operation.
use vstd::prelude::*;

use crate::config::{self, sanitize_config, NetworkConfig, ProxyCidr};
use crate::errors::{set_error_msg, ErrorMessage};
use crate::instances::{self, InstanceTable};

verus! {

/// The state of the front end.
pub struct Bridge {
    /// The running instances.
    pub instances: InstanceTable,
    /// The latest error.
    pub error: ErrorMessage,
    /// Whether the instances were asked to stop since the last start.
    pub stop_requested: bool,
    /// How often the instances were asked to stop or the last of them ended, as
    /// far as that can be counted. A start does not take it back.
    pub stops: u64,
}

/// The contents of the state.
#[verifier::ext_equal]
pub struct BridgeView {
    pub instances: Map<Seq<char>, u128>,
    pub error: Seq<char>,
    pub stop_requested: bool,
    pub stops: u64,
}

impl View for Bridge {
    type V = BridgeView;

    open spec fn view(&self) -> BridgeView {
        BridgeView {
            instances: self.instances@,
            error: self.error@,
            stop_requested: self.stop_requested,
            stops: self.stops,
        }
    }
}

/// How the logger was set up: the path of its file, its level, and the subsystem
/// under which the system's log knows it, as far as they were given.
pub struct LogSettings {
    pub path: Option<String>,
    pub level: Option<String>,
    pub subsystem: Option<String>,
}

/// The contents of the settings.
#[verifier::ext_equal]
pub struct LogSettingsView {
    pub path: Option<Seq<char>>,
    pub level: Option<Seq<char>>,
    pub subsystem: Option<Seq<char>>,
}

/// The text, if there is one.
pub open spec fn text_view(text: Option<String>) -> Option<Seq<char>> {
    match text {
        Some(s) => Some(s@),
        None => None,
    }
}

impl View for LogSettings {
    type V = LogSettingsView;

    open spec fn view(&self) -> LogSettingsView {
        LogSettingsView {
            path: text_view(self.path),
            level: text_view(self.level),
            subsystem: text_view(self.subsystem),
        }
    }
}

/// What is given, or what was there before.
pub open spec fn given_or(
    given: Option<Seq<char>>,
    before: Option<Seq<char>>,
) -> Option<Seq<char>> {
    match given {
        Some(text) => Some(text),
        None => before,
    }
}

/// Something to perform, or the outcome.
pub enum Step<A, R> {
    Perform(A),
    Done(R),
}

/// What happens in the course of a start: the text of the configuration was
/// parsed, or the manager started the instance `name`.
pub enum RunEvent {
    Parsed(Result<NetworkConfig, String>),
    Launched { name: String, result: Result<u128, String> },
}

/// A start that the manager is to perform.
pub struct Launch {
    pub config: NetworkConfig,
}

/// What happens in the course of a stop: it was asked for, or the manager has
/// ended the instances.
pub enum StopEvent {
    Requested,
    Ended(Result<(), String>),
}

/// What happens in the course of keeping some instances and ending the others.
pub enum RetainEvent {
    Requested,
    Ended(Result<(), String>),
}

/// What happens in the course of handing over a tunnel device: it was asked for,
/// or the manager has handed it over.
pub enum TunEvent {
    Requested,
    Applied(Result<(), String>),
}

/// A tunnel device for the instance with the id `id`.
pub struct TunRequest {
    pub id: u128,
    pub fd: i32,
}

/// The state with another latest error.
pub open spec fn with_error(b: BridgeView, msg: Seq<char>) -> BridgeView {
    BridgeView { error: msg, ..b }
}

/// One more than `stops`, but no more than can be counted.
pub open spec fn one_more(stops: u64) -> u64 {
    if stops < u64::MAX {
        (stops + 1) as u64
    } else {
        stops
    }
}

/// The state with only `left` of the instances running. It counts as a stop that
/// the last one has ended.
pub open spec fn with_left(b: BridgeView, left: Map<Seq<char>, u128>) -> BridgeView {
    BridgeView {
        instances: left,
        stops: if b.instances != instances::no_instances() && left == instances::no_instances() {
            one_more(b.stops)
        } else {
            b.stops
        },
        ..b
    }
}

/// How an operation goes on: with something to perform, or with its end.
pub enum Verdict {
    Perform,
    Success,
    Failure(Seq<char>),
}

/// The state after an operation has gone on that way: a failure is the latest
/// error.
pub open spec fn noted(b: BridgeView, verdict: Verdict) -> BridgeView {
    match verdict {
        Verdict::Failure(msg) => with_error(b, msg),
        _ => b,
    }
}

/// The step goes on that way.
pub open spec fn is_step<A>(step: Step<A, Result<(), String>>, verdict: Verdict) -> bool {
    match verdict {
        Verdict::Perform => step is Perform,
        Verdict::Success => step matches Step::Done(Ok(_)),
        Verdict::Failure(msg) => step matches Step::Done(Err(text)) && text@ == msg,
    }
}

/// How a start goes on. A configuration that cannot be parsed is refused, and so
/// is one with the name of a running instance.
pub open spec fn run_verdict(b: BridgeView, event: RunEvent) -> Verdict {
    match event {
        RunEvent::Parsed(Err(e)) => Verdict::Failure("failed to parse config: "@ + e@),
        RunEvent::Parsed(Ok(cfg)) => if b.instances.contains_key(cfg@.inst_name) {
            Verdict::Failure("instance already exists"@)
        } else {
            Verdict::Perform
        },
        RunEvent::Launched { name, result: Err(e) } => Verdict::Failure(
            "failed to start instance: "@ + e@,
        ),
        RunEvent::Launched { name, result: Ok(id) } => Verdict::Success,
    }
}

/// The state after an event of a start. A parsed configuration takes back a
/// request to stop, and a launched instance enters the table.
pub open spec fn after_run(b: BridgeView, event: RunEvent) -> BridgeView {
    let moved = match event {
        RunEvent::Parsed(Ok(cfg)) => BridgeView { stop_requested: false, ..b },
        RunEvent::Launched { name, result: Ok(id) } => BridgeView {
            instances: b.instances.insert(name@, id),
            ..b
        },
        _ => b,
    };
    noted(moved, run_verdict(b, event))
}

/// The launch is of the parsed configuration, under the policy.
pub open spec fn is_launch(event: RunEvent, launch: Launch) -> bool {
    event matches RunEvent::Parsed(Ok(cfg)) && config::is_sanitized(cfg@, launch.config@)
}

/// The offered networks that the policy takes out of the configuration, whether or
/// not it is launched: those that hold an address that is not private.
pub open spec fn dropped_by(event: RunEvent) -> Seq<ProxyCidr> {
    match event {
        RunEvent::Parsed(Ok(cfg)) => cfg@.proxy_cidrs.filter(
            |p: ProxyCidr| !config::is_private_proxy(p),
        ),
        _ => Seq::empty(),
    }
}

/// How a stop goes on.
pub open spec fn stop_verdict(event: StopEvent) -> Verdict {
    match event {
        StopEvent::Requested => Verdict::Perform,
        StopEvent::Ended(Err(e)) => Verdict::Failure("failed to stop instances: "@ + e@),
        StopEvent::Ended(Ok(_)) => Verdict::Success,
    }
}

/// The state after an event of a stop. The request counts, and stands even where
/// it fails.
pub open spec fn after_stop(b: BridgeView, event: StopEvent) -> BridgeView {
    let moved = match event {
        StopEvent::Requested => BridgeView {
            stop_requested: true,
            stops: one_more(b.stops),
            ..b
        },
        StopEvent::Ended(Ok(_)) => with_left(b, instances::no_instances()),
        _ => b,
    };
    noted(moved, stop_verdict(event))
}

/// How keeping some instances goes on.
pub open spec fn retain_verdict(event: RetainEvent) -> Verdict {
    match event {
        RetainEvent::Requested => Verdict::Perform,
        RetainEvent::Ended(Err(e)) => Verdict::Failure("failed to retain instances: "@ + e@),
        RetainEvent::Ended(Ok(_)) => Verdict::Success,
    }
}

/// The state after an event of keeping the instances of `names`.
pub open spec fn after_retain(
    b: BridgeView,
    names: Seq<Seq<char>>,
    event: RetainEvent,
) -> BridgeView {
    let moved = match event {
        RetainEvent::Ended(Ok(_)) => with_left(b, b.instances.restrict(names.to_set())),
        _ => b,
    };
    noted(moved, retain_verdict(event))
}

/// How handing over a tunnel device goes on. It takes a running instance.
pub open spec fn tun_verdict(b: BridgeView, event: TunEvent) -> Verdict {
    match event {
        TunEvent::Requested => if b.instances == instances::no_instances() {
            Verdict::Failure("no running instance"@)
        } else {
            Verdict::Perform
        },
        TunEvent::Applied(Err(e)) => Verdict::Failure("failed to set tun fd: "@ + e@),
        TunEvent::Applied(Ok(_)) => Verdict::Success,
    }
}

/// The state after an event of handing over a tunnel device.
pub open spec fn after_tun(b: BridgeView, event: TunEvent) -> BridgeView {
    noted(b, tun_verdict(b, event))
}

/// The device is `fd`, for one of the running instances.
pub open spec fn is_tun_request(b: BridgeView, fd: i32, request: TunRequest) -> bool {
    request.fd == fd && b.instances.contains_value(request.id)
}

/// `prefix` and `detail` in one text.
pub(crate) fn message(prefix: &str, detail: &str) -> (r: String)
    ensures
        r@ == prefix@ + detail@,
{
    let mut text = prefix.to_owned();
    text.append(detail);
    text
}

impl Bridge {
    /// The state before anything has happened.
    pub fn new() -> (r: Bridge)
        ensures
            r@ == (BridgeView {
                instances: instances::no_instances(),
                error: Seq::empty(),
                stop_requested: false,
                stops: 0,
            }),
    {
        Bridge {
            instances: InstanceTable::new(),
            error: ErrorMessage::new(),
            stop_requested: false,
            stops: 0,
        }
    }

    /// Counts a stop.
    fn count_stop(&mut self)
        ensures
            final(self)@ == (BridgeView { stops: one_more(old(self)@.stops), ..old(self)@ }),
    {
        if self.stops < u64::MAX {
            self.stops += 1;
        }
    }

    /// Records the error `msg` and answers with it.
    pub(crate) fn fail<T>(&mut self, msg: String) -> (r: Result<T, String>)
        ensures
            final(self)@ == with_error(old(self)@, msg@),
            r matches Err(text) && text@ == msg@,
    {
        set_error_msg(&mut self.error, msg.as_str());
        Err(msg)
    }
}

/// Starts an instance. A configuration that cannot be parsed is refused, and so is
/// one with the name of a running instance. Any other is put under the policy and
/// handed to the manager; what the manager has started is entered in the table.
/// A parsed configuration takes back an earlier request to stop. The offered
/// networks that the policy takes out are put in `dropped`, to be logged.
pub fn run_network_instance(
    bridge: &mut Bridge,
    event: RunEvent,
    dropped: &mut Vec<ProxyCidr>,
) -> (r: Step<Launch, Result<(), String>>)
    ensures
        is_step(r, run_verdict(old(bridge)@, event)),
        r matches Step::Perform(launch) ==> is_launch(event, launch),
        final(dropped)@ == dropped_by(event),
        final(bridge)@ == after_run(old(bridge)@, event),
{
    *dropped = Vec::new();
    match event {
        RunEvent::Parsed(Err(e)) => {
            let msg = message("failed to parse config: ", e.as_str());
            Step::Done(bridge.fail(msg))
        },
        RunEvent::Parsed(Ok(cfg)) => {
            let mut config = cfg;
            *dropped = sanitize_config(&mut config);
            bridge.stop_requested = false;
            if bridge.instances.contains(&config.inst_name) {
                return Step::Done(bridge.fail("instance already exists".to_owned()));
            }
            Step::Perform(Launch { config })
        },
        RunEvent::Launched { name, result: Err(e) } => {
            let msg = message("failed to start instance: ", e.as_str());
            Step::Done(bridge.fail(msg))
        },
        RunEvent::Launched { name, result: Ok(id) } => {
            bridge.instances.insert(name, id);
            Step::Done(Ok(()))
        },
    }
}

/// Stops all instances. The manager is to keep none of them; once it has ended
/// them the table is empty. The request to stop counts, and stands even where that
/// fails; that the last instance has ended counts too.
pub fn stop_network_instance(bridge: &mut Bridge, event: StopEvent) -> (r: Step<
    Vec<u128>,
    Result<(), String>,
>)
    ensures
        is_step(r, stop_verdict(event)),
        r matches Step::Perform(ids) ==> ids@ == Seq::<u128>::empty(),
        final(bridge)@ == after_stop(old(bridge)@, event),
{
    match event {
        StopEvent::Requested => {
            bridge.stop_requested = true;
            bridge.count_stop();
            Step::Perform(Vec::new())
        },
        StopEvent::Ended(Err(e)) => {
            let msg = message("failed to stop instances: ", e.as_str());
            Step::Done(bridge.fail(msg))
        },
        StopEvent::Ended(Ok(_)) => {
            if !bridge.instances.is_empty() {
                bridge.count_stop();
            }
            bridge.instances.clear();
            Step::Done(Ok(()))
        },
    }
}

/// Keeps the instances of `names` and ends the others. The manager is to keep the
/// ids of those names that run; once it has, the table keeps the same names. That
/// the last instance has ended counts as a stop.
pub fn retain_network_instance(bridge: &mut Bridge, names: &Vec<String>, event: RetainEvent) -> (r:
    Step<Vec<u128>, Result<(), String>>)
    ensures
        is_step(r, retain_verdict(event)),
        r matches Step::Perform(ids) ==> ids@ == instances::ids_of(
            old(bridge)@.instances,
            instances::text_views(names@),
        ),
        final(bridge)@ == after_retain(
            old(bridge)@,
            instances::text_views(names@),
            event,
        ),
{
    match event {
        RetainEvent::Requested => Step::Perform(bridge.instances.ids(names)),
        RetainEvent::Ended(Err(e)) => {
            let msg = message("failed to retain instances: ", e.as_str());
            Step::Done(bridge.fail(msg))
        },
        RetainEvent::Ended(Ok(_)) => {
            let some_ran = !bridge.instances.is_empty();
            if names.len() == 0 {
                bridge.instances.clear();
                assert(bridge@.instances =~= old(bridge)@.instances.restrict(
                    instances::text_views(names@).to_set(),
                ));
            } else {
                bridge.instances.retain(names);
            }
            if some_ran && bridge.instances.is_empty() {
                bridge.count_stop();
            }
            Step::Done(Ok(()))
        },
    }
}

/// Hands the tunnel device `fd` to a running instance.
pub fn set_tun_fd(bridge: &mut Bridge, fd: i32, event: TunEvent) -> (r: Step<
    TunRequest,
    Result<(), String>,
>)
    ensures
        is_step(r, tun_verdict(old(bridge)@, event)),
        r matches Step::Perform(request) ==> is_tun_request(old(bridge)@, fd, request),
        final(bridge)@ == after_tun(old(bridge)@, event),
{
    match event {
        TunEvent::Requested => {
            match bridge.instances.get_instance_id() {
                Some(id) => Step::Perform(TunRequest { id, fd }),
                None => Step::Done(bridge.fail("no running instance".to_owned())),
            }
        },
        TunEvent::Applied(Err(e)) => {
            let msg = message("failed to set tun fd: ", e.as_str());
            Step::Done(bridge.fail(msg))
        },
        TunEvent::Applied(Ok(_)) => Step::Done(Ok(())),
    }
}

/// Reports whether the text of a configuration could be parsed.
pub fn parse_config(bridge: &mut Bridge, parsed: Result<(), String>) -> (r: Result<(), String>)
    ensures
        match parsed {
            Ok(_) => r is Ok && final(bridge)@ == old(bridge)@,
            Err(e) => {
                let msg = "failed to parse config: "@ + e@;
                &&& r matches Err(text) && text@ == msg
                &&& final(bridge)@ == with_error(old(bridge)@, msg)
            },
        },
{
    match parsed {
        Ok(_) => Ok(()),
        Err(e) => {
            let msg = message("failed to parse config: ", e.as_str());
            bridge.fail(msg)
        },
    }
}

/// The status that reports an outcome to C: 0 for success, -1 for an error.
pub fn status_code(outcome: &Result<(), String>) -> (r: i32)
    ensures
        r == if outcome is Ok {
            0int
        } else {
            -1int
        },
{
    match outcome {
        Ok(_) => 0,
        Err(_) => -1,
    }
}

impl LogSettings {
    /// The settings before any is given.
    pub fn new() -> (r: LogSettings)
        ensures
            r@ == (LogSettingsView { path: None, level: None, subsystem: None }),
    {
        LogSettings { path: None, level: None, subsystem: None }
    }
}

/// Sets the logger up with a path, a level and a subsystem: each that the caller
/// gives is recorded, and one that is not given stays as it was. The status is 0.
pub fn init_logger(
    settings: &mut LogSettings,
    path: Option<String>,
    level: Option<String>,
    subsystem: Option<String>,
) -> (r: i32)
    ensures
        r == 0,
        final(settings)@ == (LogSettingsView {
            path: given_or(text_view(path), old(settings)@.path),
            level: given_or(text_view(level), old(settings)@.level),
            subsystem: given_or(text_view(subsystem), old(settings)@.subsystem),
        }),
{
    if path.is_some() {
        settings.path = path;
    }
    if level.is_some() {
        settings.level = level;
    }
    if subsystem.is_some() {
        settings.subsystem = subsystem;
    }
    0
}

} // verus!
