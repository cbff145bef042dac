//! The operations as the user interface calls them: errors become `false`, an
//! empty text or an empty object.
use vstd::prelude::*;

use crate::config::ProxyCidr;
use crate::core_logs;
use crate::errors::ErrorMessage;
use crate::log_buffer::LogBuffer;
use crate::session::{self, Bridge, Launch, RunEvent, Step, StopEvent, TunEvent, TunRequest, Verdict};

verus! {

/// The step goes on that way: an outcome is whether it is a success.
pub open spec fn is_answer<A>(step: Step<A, bool>, verdict: Verdict) -> bool {
    match verdict {
        Verdict::Perform => step is Perform,
        Verdict::Success => step matches Step::Done(ok) && ok,
        Verdict::Failure(_) => step matches Step::Done(ok) && !ok,
    }
}

/// Turns the outcome of an operation into whether it is a success.
fn answer<A>(step: Step<A, Result<(), String>>) -> (r: Step<A, bool>)
    ensures
        match step {
            Step::Perform(a) => r == Step::<A, bool>::Perform(a),
            Step::Done(outcome) => r == Step::<A, bool>::Done(outcome is Ok),
        },
{
    match step {
        Step::Perform(a) => Step::Perform(a),
        Step::Done(outcome) => Step::Done(outcome.is_ok()),
    }
}

/// Starts an instance, and tells whether it runs. The offered networks that the
/// policy takes out are put in `dropped`, to be logged.
pub fn run_network_instance(
    bridge: &mut Bridge,
    event: RunEvent,
    dropped: &mut Vec<ProxyCidr>,
) -> (r: Step<Launch, bool>)
    ensures
        is_answer(r, session::run_verdict(old(bridge)@, event)),
        r matches Step::Perform(launch) ==> session::is_launch(event, launch),
        final(dropped)@ == session::dropped_by(event),
        final(bridge)@ == session::after_run(old(bridge)@, event),
{
    answer(session::run_network_instance(bridge, event, dropped))
}

/// Hands the tunnel device `fd` to a running instance, and tells whether that
/// succeeded.
pub fn set_tun_fd(bridge: &mut Bridge, fd: i32, event: TunEvent) -> (r: Step<TunRequest, bool>)
    ensures
        is_answer(r, session::tun_verdict(old(bridge)@, event)),
        r matches Step::Perform(request) ==> session::is_tun_request(
            old(bridge)@,
            fd,
            request,
        ),
        final(bridge)@ == session::after_tun(old(bridge)@, event),
{
    answer(session::set_tun_fd(bridge, fd, event))
}

/// Stops all instances, and tells whether that succeeded.
pub fn stop_network_instance(bridge: &mut Bridge, event: StopEvent) -> (r: Step<Vec<u128>, bool>)
    ensures
        is_answer(r, session::stop_verdict(event)),
        r matches Step::Perform(ids) ==> ids@ == Seq::<u128>::empty(),
        final(bridge)@ == session::after_stop(old(bridge)@, event),
{
    answer(session::stop_network_instance(bridge, event))
}

/// `ok`, or why the text of a configuration could not be parsed.
pub fn parse_config(bridge: &mut Bridge, parsed: Result<(), String>) -> (r: String)
    ensures
        match parsed {
            Ok(_) => r@ == "ok"@ && final(bridge)@ == old(bridge)@,
            Err(e) => {
                &&& r@ == "failed to parse config: "@ + e@
                &&& final(bridge)@ == session::with_error(old(bridge)@, r@)
            },
        },
{
    match session::parse_config(bridge, parsed) {
        Ok(_) => "ok".to_owned(),
        Err(e) => e,
    }
}

/// The text of the collected state of the instances, or an empty object where
/// they could not be collected.
pub fn collect_network_infos(collected: Result<String, String>) -> (r: String)
    ensures
        match collected {
            Ok(text) => r@ == text@,
            Err(_) => r@ == "{}"@,
        },
{
    match collected {
        Ok(text) => text,
        Err(_) => "{}".to_owned(),
    }
}

/// The latest error message, empty where there is none.
pub fn get_latest_error_msg(error: &ErrorMessage) -> (r: String)
    ensures
        r@ == error@,
{
    error.text().to_owned()
}

/// The core log as JSON.
pub fn get_core_logs(log: &LogBuffer) -> (r: String)
    ensures
        r@ == core_logs::export_text(
            core_logs::entries_of(core_logs::utf8_lossy(log@)),
        ),
        vstd::utf8::valid_utf8(log@) ==> r@ == core_logs::export_text(
            core_logs::entries_of(vstd::utf8::decode_utf8(log@)),
        ),
        !r@.contains('\0'),
{
    core_logs::get_core_logs(log)
}

} // verus!
