//! The exporter's state: its settings, its event counters and the discovered methods; and its health.

use crate::answers::{fields_view, json_view, plain_text, put, JsonView};
use crate::events::{after_notification, can_count, no_events, CountersView, EventCounters};
use crate::json::Json;
use crate::plugin_metrics::Registry;
use crate::scrape::ScrapeSettings;
use crate::text::same_text;
use vstd::prelude::*;

verus! {

/// What the exporter works with.
pub struct AppState {
    pub rpc_path: String,
    /// How long a call of the node may take, in seconds.
    pub rpc_timeout: u64,
    pub liquidity_target_percent: u64,
    pub htlc_warning_blocks: u64,
    pub events: EventCounters,
    pub plugin_metrics: Registry,
}

/// Which option has a value that is not accepted.
#[derive(Clone, Copy, Debug, PartialEq, Eq, Structural)]
pub enum SettingsError {
    RpcTimeout,
    LiquidityTarget,
    HtlcWarningBlocks,
}

impl SettingsError {
    /// What the option must be.
    pub fn message(self) -> (r: &'static str)
        ensures
            r@ == match self {
                SettingsError::RpcTimeout => "prometheus-rpc-timeout must be positive"@,
                SettingsError::LiquidityTarget =>
                    "prometheus-liquidity-target-percent must be between 0 and 50"@,
                SettingsError::HtlcWarningBlocks =>
                    "prometheus-htlc-warning-blocks must be positive"@,
            },
    {
        match self {
            SettingsError::RpcTimeout => "prometheus-rpc-timeout must be positive",
            SettingsError::LiquidityTarget =>
                "prometheus-liquidity-target-percent must be between 0 and 50",
            SettingsError::HtlcWarningBlocks => "prometheus-htlc-warning-blocks must be positive",
        }
    }
}

/// What is wrong with the options, if anything.
pub open spec fn settings_problem(
    rpc_timeout: i64,
    liquidity_target: i64,
    htlc_warning_blocks: i64,
) -> Option<SettingsError> {
    if rpc_timeout <= 0 {
        Some(SettingsError::RpcTimeout)
    } else if !(0 <= liquidity_target <= 50) {
        Some(SettingsError::LiquidityTarget)
    } else if htlc_warning_blocks <= 0 {
        Some(SettingsError::HtlcWarningBlocks)
    } else {
        None
    }
}

/// What a notification is about: its topic and its body.
pub open spec fn notification(value: Json) -> Option<(Seq<char>, Json)> {
    match value.members() {
        Some(fields) => if fields.len() > 0 {
            Some((fields[0].0@, fields[0].1))
        } else {
            None
        },
        None => None,
    }
}

/// Whether a topic says that a plugin came or went.
pub open spec fn is_plugin_topic(topic: Seq<char>) -> bool {
    topic == "plugin_started"@ || topic == "plugin_stopped"@
}

impl AppState {
    /// The state that the exporter starts with, where the options are accepted.
    pub fn configured(
        rpc_path: String,
        rpc_timeout: i64,
        liquidity_target: i64,
        htlc_warning_blocks: i64,
    ) -> (r: Result<AppState, SettingsError>)
        ensures
            match settings_problem(rpc_timeout, liquidity_target, htlc_warning_blocks) {
                Some(problem) => r == Err::<AppState, SettingsError>(problem),
                None => r matches Ok(state) && {
                    &&& state.rpc_path == rpc_path
                    &&& state.rpc_timeout == rpc_timeout
                    &&& state.liquidity_target_percent == liquidity_target
                    &&& state.htlc_warning_blocks == htlc_warning_blocks
                    &&& state.events@ == no_events()
                    &&& state.plugin_metrics.known() == Seq::<Seq<char>>::empty()
                    &&& state.plugin_metrics.refreshed() is None
                },
            },
    {
        if rpc_timeout <= 0 {
            return Err(SettingsError::RpcTimeout);
        }
        if liquidity_target < 0 || liquidity_target > 50 {
            return Err(SettingsError::LiquidityTarget);
        }
        if htlc_warning_blocks <= 0 {
            return Err(SettingsError::HtlcWarningBlocks);
        }
        Ok(
            AppState {
                rpc_path,
                rpc_timeout: rpc_timeout as u64,
                liquidity_target_percent: liquidity_target as u64,
                htlc_warning_blocks: htlc_warning_blocks as u64,
                events: EventCounters::default(),
                plugin_metrics: Registry::default(),
            },
        )
    }

    /// The settings of a scrape.
    pub fn scrape_settings(&self) -> (r: ScrapeSettings)
        ensures
            r.liquidity_target_percent == self.liquidity_target_percent,
            r.htlc_warning_blocks == self.htlc_warning_blocks,
    {
        ScrapeSettings {
            liquidity_target_percent: self.liquidity_target_percent,
            htlc_warning_blocks: self.htlc_warning_blocks,
        }
    }
}

/// Whether the counters that a notification goes to, if any, have not reached their ends.
pub open spec fn can_take(events: CountersView, value: Json) -> bool {
    match notification(value) {
        Some((topic, body)) => topic == "shutdown"@ || can_count(events, topic, body),
        None => true,
    }
}

/// Whether the counters that a notification goes to, if any, can count one more.
pub fn has_room_for_notification(state: &AppState, value: &Json) -> (r: bool)
    ensures
        r == can_take(state.events@, *value),
{
    match value.as_object() {
        Some(fields) => fields.len() == 0 || same_text(fields[0].0.as_str(), "shutdown")
            || state.events.has_room(fields[0].0.as_str(), &fields[0].1),
        None => true,
    }
}

/// Takes in a notification, and says whether it asks the plugin to shut down.
pub fn on_notification(state: &mut AppState, value: &Json, now: u64) -> (shutdown: bool)
    requires
        can_take(old(state).events@, *value),
    ensures
        final(state).rpc_path == old(state).rpc_path,
        final(state).rpc_timeout == old(state).rpc_timeout,
        final(state).liquidity_target_percent == old(state).liquidity_target_percent,
        final(state).htlc_warning_blocks == old(state).htlc_warning_blocks,
        final(state).plugin_metrics.known() == old(state).plugin_metrics.known(),
        match notification(*value) {
            Some((topic, body)) => {
                &&& shutdown == (topic == "shutdown"@)
                &&& final(state).events@ == if shutdown {
                    old(state).events@
                } else {
                    after_notification(old(state).events@, topic, body, now)
                }
                &&& final(state).plugin_metrics.refreshed() == if !shutdown && is_plugin_topic(
                    topic,
                ) {
                    None
                } else {
                    old(state).plugin_metrics.refreshed()
                }
            },
            None => {
                &&& !shutdown
                &&& final(state).events@ == old(state).events@
                &&& final(state).plugin_metrics.refreshed() == old(state).plugin_metrics.refreshed()
            },
        },
{
    let fields = match value.as_object() {
        Some(fields) => fields,
        None => {
            return false;
        },
    };
    if fields.len() == 0 {
        return false;
    }
    let topic = fields[0].0.as_str();
    let body = &fields[0].1;
    if same_text(topic, "shutdown") {
        return true;
    }
    if same_text(topic, "plugin_started") || same_text(topic, "plugin_stopped") {
        state.plugin_metrics.invalidate();
    }
    state.events.record(topic, body, now);
    false
}

/// The status of a healthy exporter.
pub const HEALTHY_STATUS: u16 = 200;

/// The status of an exporter that cannot call the node.
pub const UNHEALTHY_STATUS: u16 = 503;

/// What is said of the exporter's health, where a call of the node failed with an error or succeeded.
pub open spec fn health_json(error: Option<Seq<char>>) -> JsonView {
    match error {
        None => JsonView::Object(seq![("healthy"@, JsonView::Bool(true))]),
        Some(error) => JsonView::Object(
            seq![("healthy"@, JsonView::Bool(false)), ("error"@, JsonView::Text(error))],
        ),
    }
}

/// The status and the body of the answer to a question for the exporter's health: it is healthy where
/// it can call the node.
pub fn health(error: Option<&str>) -> (r: (u16, Json))
    ensures
        r.0 == (if error is None {
            HEALTHY_STATUS
        } else {
            UNHEALTHY_STATUS
        }),
        json_view(r.1) == health_json(error.deep_view()),
{
    let mut fields: Vec<(String, Json)> = Vec::new();
    put(&mut fields, "healthy", Json::Bool(error.is_none()));
    let status: u16 = match error {
        None => HEALTHY_STATUS,
        Some(error) => {
            put(&mut fields, "error", plain_text(error));
            UNHEALTHY_STATUS
        },
    };
    assert(fields_view(fields@) =~= health_json(error.deep_view())->Object_0);
    (status, Json::Object(fields))
}

} // verus!
