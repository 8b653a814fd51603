//! The per-connection control loop's decisions, as a pure step function.
//!
//! The caller (the process around the library) owns the transport: it
//! authorizes the peer once, receives messages, performs the planned
//! deliveries, and feeds each observation back here as an event.  Every
//! decision — authorize, decode, convert, select a sink, close — is taken by
//! `handle_event`, whose outcome is pinned by `handle_post`.
//!
//! A transport interruption is treated as transient: the connection keeps
//! serving.  A decode, conversion, format or scheme failure closes the
//! connection; a delivery failure is the caller's to report, and the
//! connection serves on.

use vstd::prelude::*;

use crate::decode::{DecodeError, spec_decode_metric_set, decode_metric_set};
use crate::json::{Json, JsonV, json_text};
use crate::model::{MIN_TIMESTAMP, MAX_TIMESTAMP};
use crate::monarch::{ConvertError, CollectionWrapperV, convert, convert_post, spec_dataset,
    wrapper_times_ok};
use crate::sink::{SinkAction, SinkActionV, DispatchError, spec_plan_delivery, plan_delivery};
use crate::wire::{raw_jsonv, monarch_jsonv, raw_payload, monarch_payload};

verus! {

/// The export configuration read before each message: whether to export, the
/// chosen format code, the destination URL and the delivery timeout.
#[derive(Debug, PartialEq)]
pub struct Config {
    pub export_enabled: bool,
    pub format: i8,
    pub destination: String,
    pub timeout_seconds: u64,
}

pub struct ConfigV {
    pub export_enabled: bool,
    pub format: int,
    pub destination: Seq<char>,
    pub timeout_seconds: u64,
}

impl View for Config {
    type V = ConfigV;

    open spec fn view(&self) -> ConfigV {
        ConfigV {
            export_enabled: self.export_enabled,
            format: self.format as int,
            destination: self.destination@,
            timeout_seconds: self.timeout_seconds,
        }
    }
}

/// The format code selecting the Raw output.
pub const FORMAT_RAW: i8 = 1;

/// The format code selecting the Monarch output.
pub const FORMAT_MONARCH: i8 = 2;

/// The connection's state: authorize once, then serve until closed.
#[derive(Debug, Clone, Copy, PartialEq, Eq, Structural)]
pub enum ConnState {
    AwaitingAuthorization,
    Serving,
    Closed,
}

/// One observation of the connection, fed in by the caller.
pub enum ConnEvent {
    /// The peer-authorization decision, queried once on accept.
    Authorized(bool),
    /// A message arrived; the caller has located the payload bytes and
    /// parsed them into a JSON tree, or failed to.
    MessageReceived(Result<Json, DecodeError>),
    /// A transport-level interruption: transient, not fatal.
    Interrupted,
    /// The peer closed the connection.
    PeerClosed,
}

pub enum ConnEventV {
    Authorized(bool),
    MessageReceived(Result<JsonV, DecodeError>),
    Interrupted,
    PeerClosed,
}

impl View for ConnEvent {
    type V = ConnEventV;

    open spec fn view(&self) -> ConnEventV {
        match self {
            ConnEvent::Authorized(b) => ConnEventV::Authorized(*b),
            ConnEvent::MessageReceived(p) => ConnEventV::MessageReceived(
                match p {
                    Ok(j) => Ok(j@),
                    Err(e) => Err(*e),
                },
            ),
            ConnEvent::Interrupted => ConnEventV::Interrupted,
            ConnEvent::PeerClosed => ConnEventV::PeerClosed,
        }
    }
}

/// A condition reported by the step function.
#[derive(Debug, Clone, Copy, PartialEq, Eq, Structural)]
pub enum ConnError {
    /// The peer is not an authorized producer; nothing was served.
    AuthorizationDenied,
    /// The message could not be decoded; fatal to the connection.
    Decode(DecodeError),
    /// The snapshot could not be converted; fatal to the connection.
    Convert(ConvertError),
    /// The configured format code is unknown; fatal to the connection.
    UnsupportedFormat,
    /// The destination URL supports no delivery; fatal to the connection.
    Dispatch(DispatchError),
}

/// One step's outcome: the next state, a delivery for the caller to perform,
/// and a condition to report.
pub struct StepV {
    pub state: ConnState,
    pub action: Option<SinkActionV>,
    pub report: Option<ConnError>,
}

/// What planning a delivery does to the connection: a planned delivery keeps
/// it serving; a destination failure closes it.
pub open spec fn dispatch_post(payload: Seq<char>, config: ConfigV, out: StepV) -> bool {
    match spec_plan_delivery(config.destination, payload, config.timeout_seconds) {
        Ok(a) => out == StepV { state: ConnState::Serving, action: Some(a), report: None },
        Err(e) => out == StepV {
            state: ConnState::Closed,
            action: None,
            report: Some(ConnError::Dispatch(e)),
        },
    }
}

/// What processing one decoded message does: export disabled closes the
/// connection; a schema or conversion failure closes it; otherwise the
/// payload for the configured format is planned for delivery.  The Monarch
/// payload renders the (unique) sorted conversion of the snapshot.
pub open spec fn process_post(j: JsonV, config: ConfigV, end: int, out: StepV) -> bool {
    if !config.export_enabled {
        out == StepV { state: ConnState::Closed, action: None, report: None }
    } else {
        match spec_decode_metric_set(j) {
            Err(e) => out == StepV {
                state: ConnState::Closed,
                action: None,
                report: Some(ConnError::Decode(e)),
            },
            Ok(ms) => if config.format == FORMAT_RAW as int {
                dispatch_post(json_text(raw_jsonv(ms)), config, out)
            } else if config.format == FORMAT_MONARCH as int {
                match spec_dataset(ms.metrics, end) {
                    Err(e) => out == StepV {
                        state: ConnState::Closed,
                        action: None,
                        report: Some(ConnError::Convert(e)),
                    },
                    Ok(_) => exists|w: CollectionWrapperV|
                        convert_post(ms, end, w) && dispatch_post(
                            json_text(monarch_jsonv(w)),
                            config,
                            out,
                        ),
                }
            } else {
                out == StepV {
                    state: ConnState::Closed,
                    action: None,
                    report: Some(ConnError::UnsupportedFormat),
                }
            },
        }
    }
}

/// The step function's full behavior.  A closed connection stays closed and
/// does nothing.  Before authorization, only the authorization decision is
/// awaited: denial closes the connection without any further work, and any
/// other event closes it defensively.  While serving, end-of-stream closes,
/// an interruption is ignored, a failed payload closes with the decode
/// error, and a decoded message is processed as `process_post` says.
pub open spec fn handle_post(
    state: ConnState,
    event: ConnEventV,
    config: ConfigV,
    end: int,
    out: StepV,
) -> bool {
    match state {
        ConnState::Closed => out == StepV {
            state: ConnState::Closed,
            action: None,
            report: None,
        },
        ConnState::AwaitingAuthorization => match event {
            ConnEventV::Authorized(ok) => if ok {
                out == StepV { state: ConnState::Serving, action: None, report: None }
            } else {
                out == StepV {
                    state: ConnState::Closed,
                    action: None,
                    report: Some(ConnError::AuthorizationDenied),
                }
            },
            _ => out == StepV { state: ConnState::Closed, action: None, report: None },
        },
        ConnState::Serving => match event {
            ConnEventV::PeerClosed => out == StepV {
                state: ConnState::Closed,
                action: None,
                report: None,
            },
            ConnEventV::Interrupted => out == StepV {
                state: ConnState::Serving,
                action: None,
                report: None,
            },
            ConnEventV::Authorized(_) => out == StepV {
                state: ConnState::Serving,
                action: None,
                report: None,
            },
            ConnEventV::MessageReceived(p) => match p {
                Err(e) => out == StepV {
                    state: ConnState::Closed,
                    action: None,
                    report: Some(ConnError::Decode(e)),
                },
                Ok(j) => process_post(j, config, end, out),
            },
        },
    }
}

pub open spec fn step_v(r: (ConnState, Option<SinkAction>, Option<ConnError>)) -> StepV {
    StepV {
        state: r.0,
        action: match r.1 {
            Some(a) => Some(a@),
            None => None,
        },
        report: r.2,
    }
}

fn plan_dispatch(payload: String, config: &Config) -> (r: (
    ConnState,
    Option<SinkAction>,
    Option<ConnError>,
))
    ensures
        dispatch_post(payload@, config@, step_v(r)),
{
    match plan_delivery(&config.destination, payload, config.timeout_seconds) {
        Ok(a) => (ConnState::Serving, Some(a), None),
        Err(e) => (ConnState::Closed, None, Some(ConnError::Dispatch(e))),
    }
}

fn process_snapshot(j: &Json, config: &Config, end_timestamp: i64) -> (r: (
    ConnState,
    Option<SinkAction>,
    Option<ConnError>,
))
    requires
        MIN_TIMESTAMP <= end_timestamp <= MAX_TIMESTAMP,
    ensures
        process_post(j@, config@, end_timestamp as int, step_v(r)),
{
    if !config.export_enabled {
        return (ConnState::Closed, None, None);
    }
    let ms = match decode_metric_set(j) {
        Ok(ms) => ms,
        Err(e) => {
            return (ConnState::Closed, None, Some(ConnError::Decode(e)));
        },
    };
    if config.format == FORMAT_RAW {
        let payload = raw_payload(&ms);
        plan_dispatch(payload, config)
    } else if config.format == FORMAT_MONARCH {
        match convert(&ms, end_timestamp) {
            Err(e) => (ConnState::Closed, None, Some(ConnError::Convert(e))),
            Ok(w) => {
                proof {
                    assert(wrapper_times_ok(w@));
                }
                let ghost w_v = w@;
                let payload = monarch_payload(&w);
                let r = plan_dispatch(payload, config);
                proof {
                    let ms_v = spec_decode_metric_set(j@).unwrap();
                    assert(convert_post(ms_v, end_timestamp as int, w_v) && dispatch_post(
                        json_text(monarch_jsonv(w_v)),
                        config@,
                        step_v(r),
                    ));
                }
                r
            },
        }
    } else {
        (ConnState::Closed, None, Some(ConnError::UnsupportedFormat))
    }
}

/// One step of the connection's control loop.
pub fn handle_event(state: ConnState, event: ConnEvent, config: &Config, end_timestamp: i64) -> (r:
    (ConnState, Option<SinkAction>, Option<ConnError>))
    requires
        MIN_TIMESTAMP <= end_timestamp <= MAX_TIMESTAMP,
    ensures
        handle_post(state, event@, config@, end_timestamp as int, step_v(r)),
{
    match state {
        ConnState::Closed => (ConnState::Closed, None, None),
        ConnState::AwaitingAuthorization => match event {
            ConnEvent::Authorized(ok) => {
                if ok {
                    (ConnState::Serving, None, None)
                } else {
                    (ConnState::Closed, None, Some(ConnError::AuthorizationDenied))
                }
            },
            _ => (ConnState::Closed, None, None),
        },
        ConnState::Serving => match event {
            ConnEvent::PeerClosed => (ConnState::Closed, None, None),
            ConnEvent::Interrupted => (ConnState::Serving, None, None),
            ConnEvent::Authorized(_) => (ConnState::Serving, None, None),
            ConnEvent::MessageReceived(p) => match p {
                Err(e) => (ConnState::Closed, None, Some(ConnError::Decode(e))),
                Ok(j) => process_snapshot(&j, config, end_timestamp),
            },
        },
    }
}

// ---------------------------------------------------------------------------
// Law: a denied peer never triggers decoding or dispatch.
// ---------------------------------------------------------------------------

/// The state before step `i` of a run that begins awaiting authorization.
pub open spec fn run_state(outs: Seq<StepV>, i: int) -> ConnState {
    if i == 0 {
        ConnState::AwaitingAuthorization
    } else {
        outs[i - 1].state
    }
}

/// A run is valid when every step's outcome obeys the step function's
/// behavior, starting from `AwaitingAuthorization`.
pub open spec fn valid_run(
    events: Seq<ConnEventV>,
    configs: Seq<ConfigV>,
    end: int,
    outs: Seq<StepV>,
) -> bool {
    &&& events.len() == outs.len()
    &&& events.len() == configs.len()
    &&& forall|i: int|
        0 <= i < events.len() ==> handle_post(
            run_state(outs, i),
            events[i],
            configs[i],
            end,
            #[trigger] outs[i],
        )
}

proof fn lemma_denied_stays_closed(
    events: Seq<ConnEventV>,
    configs: Seq<ConfigV>,
    end: int,
    outs: Seq<StepV>,
    i: int,
)
    requires
        valid_run(events, configs, end, outs),
        events.len() > 0,
        events[0] == ConnEventV::Authorized(false),
        0 <= i < outs.len(),
    ensures
        outs[i].state == ConnState::Closed,
        outs[i].action is None,
    decreases i,
{
    if i == 0 {
    } else {
        lemma_denied_stays_closed(events, configs, end, outs, i - 1);
    }
}

/// In any run whose first event denies authorization, every step leaves the
/// connection closed and no step ever plans a delivery: an unauthorized peer
/// never triggers decoding, conversion or dispatch.
pub proof fn lemma_denied_never_dispatches(
    events: Seq<ConnEventV>,
    configs: Seq<ConfigV>,
    end: int,
    outs: Seq<StepV>,
)
    requires
        valid_run(events, configs, end, outs),
        events.len() > 0,
        events[0] == ConnEventV::Authorized(false),
    ensures
        forall|i: int| 0 <= i < outs.len() ==> (#[trigger] outs[i]).state == ConnState::Closed,
        forall|i: int| 0 <= i < outs.len() ==> (#[trigger] outs[i]).action is None,
{
    assert forall|i: int| 0 <= i < outs.len() implies (#[trigger] outs[i]).state
        == ConnState::Closed && outs[i].action is None by {
        lemma_denied_stays_closed(events, configs, end, outs, i);
    }
}

} // verus!
