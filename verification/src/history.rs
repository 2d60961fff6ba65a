//! The history plugin's decisions: its settings, the notifications it records, and what it makes of
//! an answer of the node.

use crate::activity::{cut, forward_fits, forward_row, with_forward_row, with_state_change, MAX_ERROR_CHARS};
use crate::exporter::notification;
use crate::integrity::sound;
use crate::json::Json;
use crate::recording::{
    channel_count, channels_in, fits, has_ids_for, snapshot_problem, with_run, with_snapshot,
    HistoryError,
};
use crate::store::{DbView, HistoryDb, RunRow, MAX_STORED};
use crate::text::{decimal, decimal_text, joined, same_text};
use vstd::prelude::*;

verus! {

/// What the history plugin was configured to.
#[derive(Clone, Copy, Debug)]
pub struct HistorySettings {
    /// The seconds between snapshots.
    pub sample_interval: u64,
    /// How many days rows are kept.
    pub retention_days: u64,
    /// How long a call of the node may take, in seconds.
    pub rpc_timeout: u64,
}

/// Which option of the history plugin has a value that is not accepted.
#[derive(Clone, Copy, Debug, PartialEq, Eq, Structural)]
pub enum HistorySettingsError {
    SampleInterval,
    RetentionDays,
    RpcTimeout,
}

impl HistorySettingsError {
    /// What the option must be.
    pub fn message(self) -> (r: &'static str)
        ensures
            r@ == match self {
                HistorySettingsError::SampleInterval =>
                    "history-sample-interval must be at least 30 seconds"@,
                HistorySettingsError::RetentionDays => "history-retention-days must be positive"@,
                HistorySettingsError::RpcTimeout => "history-rpc-timeout must be positive"@,
            },
    {
        match self {
            HistorySettingsError::SampleInterval =>
                "history-sample-interval must be at least 30 seconds",
            HistorySettingsError::RetentionDays => "history-retention-days must be positive",
            HistorySettingsError::RpcTimeout => "history-rpc-timeout must be positive",
        }
    }
}

/// What is wrong with the options, if anything.
pub open spec fn history_settings_problem(
    sample_interval: i64,
    retention_days: i64,
    rpc_timeout: i64,
) -> Option<HistorySettingsError> {
    if sample_interval < 30 {
        Some(HistorySettingsError::SampleInterval)
    } else if retention_days < 1 {
        Some(HistorySettingsError::RetentionDays)
    } else if rpc_timeout <= 0 {
        Some(HistorySettingsError::RpcTimeout)
    } else {
        None
    }
}

impl HistorySettings {
    /// The settings, where the options are accepted.
    pub fn configured(sample_interval: i64, retention_days: i64, rpc_timeout: i64) -> (r: Result<
        HistorySettings,
        HistorySettingsError,
    >)
        ensures
            match history_settings_problem(sample_interval, retention_days, rpc_timeout) {
                Some(problem) => r == Err::<HistorySettings, HistorySettingsError>(problem),
                None => r matches Ok(settings) && settings.sample_interval == sample_interval
                    && settings.retention_days == retention_days && settings.rpc_timeout
                    == rpc_timeout,
            },
    {
        if sample_interval < 30 {
            return Err(HistorySettingsError::SampleInterval);
        }
        if retention_days < 1 {
            return Err(HistorySettingsError::RetentionDays);
        }
        if rpc_timeout <= 0 {
            return Err(HistorySettingsError::RpcTimeout);
        }
        Ok(
            HistorySettings {
                sample_interval: sample_interval as u64,
                retention_days: retention_days as u64,
                rpc_timeout: rpc_timeout as u64,
            },
        )
    }
}

impl HistoryError {
    /// What went wrong, in words.
    pub open spec fn text(self) -> Seq<char> {
        match self {
            HistoryError::NoChannels => "listpeerchannels response has no channels array"@,
            HistoryError::OutOfRange =>
                "value exceeds SQLite INTEGER range: out of range integral type conversion attempted"@,
            HistoryError::NoStatus => "probe result has no status"@,
            HistoryError::UnknownStatus => "unknown terminal probe status"@,
            HistoryError::NoRoute => "probe result has no route"@,
            HistoryError::NoHopChannel => "probe hop has no short_channel_id_dir"@,
            HistoryError::NoHopDirection => "probe hop channel must include a direction"@,
            HistoryError::InvalidHopDirection => "parsing probe hop direction"@,
            HistoryError::NoHopDestination => "probe hop has no destination"@,
            HistoryError::NewerSchema(version) => "database schema "@ + decimal(version as nat)
                + " is newer than this cln-history binary"@,
            HistoryError::UnknownSchema(version) => "unsupported cln-history database schema "@
                + decimal(version as nat),
        }
    }

    /// What went wrong, in words.
    pub fn message(self) -> (r: String)
        ensures
            r@ == self.text(),
    {
        let plain = match self {
            HistoryError::NewerSchema(version) => {
                let head = joined("database schema ", decimal_text(version as u128).as_str());
                return joined(head.as_str(), " is newer than this cln-history binary");
            },
            HistoryError::UnknownSchema(version) => {
                return joined(
                    "unsupported cln-history database schema ",
                    decimal_text(version as u128).as_str(),
                );
            },
            HistoryError::NoChannels => "listpeerchannels response has no channels array",
            HistoryError::OutOfRange =>
                "value exceeds SQLite INTEGER range: out of range integral type conversion attempted",
            HistoryError::NoStatus => "probe result has no status",
            HistoryError::UnknownStatus => "unknown terminal probe status",
            HistoryError::NoRoute => "probe result has no route",
            HistoryError::NoHopChannel => "probe hop has no short_channel_id_dir",
            HistoryError::NoHopDirection => "probe hop channel must include a direction",
            HistoryError::InvalidHopDirection => "parsing probe hop direction",
            HistoryError::NoHopDestination => "probe hop has no destination",
        };
        plain.to_owned()
    }

    /// What went wrong with a probe result, in words. A status that is not known is named.
    pub open spec fn probe_text(self, value: Json) -> Seq<char> {
        match (self, value.text_at("status"@)) {
            (HistoryError::UnknownStatus, Some(status)) => self.text() + ": "@ + status,
            _ => self.text(),
        }
    }

    /// What went wrong with a probe result, in words. A status that is not known is named.
    pub fn probe_message(self, value: &Json) -> (r: String)
        ensures
            r@ == self.probe_text(*value),
    {
        let plain = self.message();
        match (self, value.text_field("status")) {
            (HistoryError::UnknownStatus, Some(status)) => {
                let head = joined(plain.as_str(), ": ");
                joined(head.as_str(), status)
            },
            _ => plain,
        }
    }
}

/// What comes of a notification: an error, or whether it asks the plugin to shut down and the history
/// after it.
pub open spec fn notified(db: DbView, value: Json, now: u64) -> Result<(bool, DbView), HistoryError> {
    match notification(value) {
        None => Ok((false, db)),
        Some((topic, body)) => if topic == "shutdown"@ {
            Ok((true, db))
        } else if topic == "channel_state_changed"@ {
            if fits(now) {
                Ok((false, with_state_change(db, now, body)))
            } else {
                Err(HistoryError::OutOfRange)
            }
        } else if topic == "forward_event"@ {
            match body.text_at("in_channel"@) {
                None => Ok((false, db)),
                Some(in_channel) => {
                    let row = forward_row(db.aliases, now, in_channel, body);
                    if forward_fits(row) {
                        Ok((false, DbView { buckets: with_forward_row(db.buckets, row), ..db }))
                    } else {
                        Err(HistoryError::OutOfRange)
                    }
                },
            }
        } else {
            Ok((false, db))
        },
    }
}

/// What a notification is recorded as.
#[derive(Clone, Copy, Debug, PartialEq, Eq, Structural)]
pub enum Recording {
    Nothing,
    /// An event of a channel.
    Event,
    /// A forward.
    Forward,
}

/// What a notification is recorded as, if anything.
pub open spec fn recording_of(value: Json) -> Recording {
    match notification(value) {
        Some((topic, _)) => if topic == "channel_state_changed"@ {
            Recording::Event
        } else if topic == "forward_event"@ {
            Recording::Forward
        } else {
            Recording::Nothing
        },
        None => Recording::Nothing,
    }
}

/// What a notification is recorded as, if anything.
pub fn recording(value: &Json) -> (r: Recording)
    ensures
        r == recording_of(*value),
{
    match value.as_object() {
        Some(fields) => if fields.len() == 0 {
            Recording::Nothing
        } else if same_text(fields[0].0.as_str(), "channel_state_changed") {
            Recording::Event
        } else if same_text(fields[0].0.as_str(), "forward_event") {
            Recording::Forward
        } else {
            Recording::Nothing
        },
        None => Recording::Nothing,
    }
}

/// A notification changes the tables of what it is recorded as, and no others.
pub proof fn law_a_notification_changes_its_own_tables(db: DbView, value: Json, now: u64)
    requires
        notified(db, value, now) is Ok,
    ensures
        ({
            let after = notified(db, value, now)->Ok_0.1;
            match recording_of(value) {
                Recording::Nothing => after == db,
                Recording::Event => after == (DbView {
                    events: after.events,
                    last_event_id: after.last_event_id,
                    aliases: after.aliases,
                    ..db
                }),
                Recording::Forward => after == (DbView { buckets: after.buckets, ..db }),
            }
        }),
{
    reveal_strlit("shutdown");
    reveal_strlit("channel_state_changed");
    reveal_strlit("forward_event");
}

/// The history after a failed attempt.
pub open spec fn with_failed_run(db: DbView, ts: u64, message: Seq<char>) -> DbView {
    DbView {
        runs: with_run(
            db.runs,
            RunRow {
                ts,
                success: false,
                channel_count: None,
                error: Some(cut(message, MAX_ERROR_CHARS as int)),
            },
        ),
        ..db
    }
}

/// Why an attempt failed, if it did: the node did not answer, or the answer was not recorded.
pub open spec fn collection_problem(ts: u64, answer: Result<&Json, &str>) -> Option<Seq<char>> {
    match answer {
        Ok(response) => match snapshot_problem(ts, *response, None) {
            Some(problem) => Some(problem.text()),
            None => None,
        },
        Err(message) => Some(message@),
    }
}

/// The history after an attempt.
pub open spec fn after_collection(db: DbView, ts: u64, answer: Result<&Json, &str>) -> DbView {
    match collection_problem(ts, answer) {
        Some(message) => if fits(ts) {
            with_failed_run(db, ts, message)
        } else {
            db
        },
        None => with_snapshot(db, ts, channels_in(*answer->Ok_0)->0, None),
    }
}

impl HistoryDb {
    /// Takes in a notification, and says whether it asks the plugin to shut down.
    pub fn on_notification(&mut self, value: &Json, now: u64) -> (r: Result<bool, HistoryError>)
        requires
            recording_of(*value) is Event ==> old(self).last_event_id < MAX_STORED,
        ensures
            match notified(old(self)@, *value, now) {
                Ok((shutdown, after)) => r == Ok::<bool, HistoryError>(shutdown) && final(self)@
                    == after,
                Err(error) => r == Err::<bool, HistoryError>(error) && final(self)@ == old(self)@,
            },
            sound(old(self)@) ==> sound(final(self)@),
    {
        let fields = match value.as_object() {
            Some(fields) => fields,
            None => {
                return Ok(false);
            },
        };
        if fields.len() == 0 {
            return Ok(false);
        }
        let topic = fields[0].0.as_str();
        let body = &fields[0].1;
        if same_text(topic, "shutdown") {
            return Ok(true);
        }
        if same_text(topic, "channel_state_changed") {
            match self.record_channel_event(now, body) {
                Ok(_) => Ok(false),
                Err(error) => Err(error),
            }
        } else if same_text(topic, "forward_event") {
            match self.record_forward_event(now, body) {
                Ok(_) => Ok(false),
                Err(error) => Err(error),
            }
        } else {
            Ok(false)
        }
    }

    /// Takes in what an attempt to list the channels gave: records the channels, or that the attempt
    /// failed. Says why it failed, if it did.
    pub fn collect_once(&mut self, ts: u64, answer: Result<&Json, &str>) -> (r: Option<String>)
        requires
            answer matches Ok(response) ==> has_ids_for(old(self)@, channel_count(*response)),
        ensures
            r.deep_view() == collection_problem(ts, answer),
            final(self)@ == after_collection(old(self)@, ts, answer),
            sound(old(self)@) ==> sound(final(self)@),
    {
        let problem = match answer {
            Ok(response) => match self.record_channel_snapshot(ts, response) {
                Ok(_) => None,
                Err(error) => Some(error.message()),
            },
            Err(message) => Some(message.to_owned()),
        };
        if let Some(message) = &problem {
            let _ = self.record_collection_failure(ts, message.as_str());
        }
        problem
    }
}

} // verus!
