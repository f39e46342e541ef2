//! The two sinks that close the loop: the durable write that every batch
//! receives regardless of analytics outcome, and the rendering of alerts
//! for external notification channels. Carrying bytes to a storage backend
//! or over a webhook is the embedding program's business; the library
//! accounts for every write attempt and fixes the notification text.
use vstd::prelude::*;

use crate::config::{AlertSinkConfig, StorageSinkConfig};
use crate::telemetry::{Alert, AlertModel, AlertSeverity, TelemetryData, TelemetryDataModel};

verus! {

/// A durable write could not be completed; the engine logs and continues.
#[derive(Debug, Clone, Copy, PartialEq, Eq, Structural)]
pub struct WriteError;

/// One more, stopping at the top of the range.
pub open spec fn sat_inc(x: int) -> int {
    if x >= u64::MAX as int {
        u64::MAX as int
    } else {
        x + 1
    }
}

/// The per-batch durable write path. Every batch is dispatched by variant
/// and the attempt is accounted; the backend behind the configured endpoint
/// is out of the library's hands.
#[derive(Debug)]
pub struct StorageSink {
    pub config: StorageSinkConfig,
    pub written_traces: u64,
    pub written_metrics: u64,
    pub written_logs: u64,
}

impl StorageSink {
    pub fn new(config: &StorageSinkConfig) -> (s: StorageSink)
        ensures
            s.written_traces == 0,
            s.written_metrics == 0,
            s.written_logs == 0,
    {
        StorageSink {
            config: config.clone(),
            written_traces: 0,
            written_metrics: 0,
            written_logs: 0,
        }
    }

    /// Records one write attempt on the path matching the batch's variant.
    /// The attempt always succeeds here: durability is the backend's duty.
    pub fn write(&mut self, data: &TelemetryData) -> (r: Result<(), WriteError>)
        ensures
            r is Ok,
            match data@ {
                TelemetryDataModel::Traces(_) => final(self).written_traces == sat_inc(
                    old(self).written_traces as int,
                ) && final(self).written_metrics == old(self).written_metrics && final(self).written_logs == old(self).written_logs,
                TelemetryDataModel::Metrics(_) => final(self).written_metrics == sat_inc(
                    old(self).written_metrics as int,
                ) && final(self).written_traces == old(self).written_traces && final(self).written_logs == old(self).written_logs,
                TelemetryDataModel::Logs(_) => final(self).written_logs == sat_inc(
                    old(self).written_logs as int,
                ) && final(self).written_traces == old(self).written_traces && final(self).written_metrics == old(self).written_metrics,
            },
    {
        match data {
            TelemetryData::Traces(_) => {
                self.written_traces = self.written_traces.saturating_add(1);
            },
            TelemetryData::Metrics(_) => {
                self.written_metrics = self.written_metrics.saturating_add(1);
            },
            TelemetryData::Logs(_) => {
                self.written_logs = self.written_logs.saturating_add(1);
            },
        }
        Ok(())
    }
}

/// The icon a chat notification leads with, by severity.
pub open spec fn severity_icon(s: AlertSeverity) -> Seq<char> {
    match s {
        AlertSeverity::Critical => "red_circle"@,
        AlertSeverity::Warning => "large_orange_circle"@,
        AlertSeverity::Info => "large_blue_circle"@,
    }
}

/// The chat notification text for an alert: icon, bold name, message.
pub open spec fn chat_message_of(a: AlertModel) -> Seq<char> {
    ":"@ + severity_icon(a.severity) + ":  *"@ + a.name + "*\n"@ + a.message
}

/// Renders the chat notification for an alert.
pub fn chat_message(alert: &Alert) -> (r: String)
    ensures
        r@ == chat_message_of(alert@),
{
    let mut r = String::new();
    r.append(":");
    match alert.severity {
        AlertSeverity::Critical => r.append("red_circle"),
        AlertSeverity::Warning => r.append("large_orange_circle"),
        AlertSeverity::Info => r.append("large_blue_circle"),
    }
    r.append(":  *");
    r.append(alert.name.as_str());
    r.append("*\n");
    r.append(alert.message.as_str());
    proof {
        assert(r@ =~= chat_message_of(alert@));
    }
    r
}

/// Which notification channels an alert sink will try, from its
/// configuration: the webhook first, then chat, each only when configured.
/// A failed send is logged by the embedding program and stops nothing.
pub fn notification_targets(config: &AlertSinkConfig) -> (r: (Option<String>, Option<String>))
    ensures
        match (r.0, config.webhook_url) {
            (Some(a), Some(b)) => a@ == b@,
            (None, None) => true,
            _ => false,
        },
        match (r.1, config.slack_webhook) {
            (Some(a), Some(b)) => a@ == b@,
            (None, None) => true,
            _ => false,
        },
{
    let webhook = match &config.webhook_url {
        Some(u) => Some(u.clone()),
        None => None,
    };
    let chat = match &config.slack_webhook {
        Some(u) => Some(u.clone()),
        None => None,
    };
    (webhook, chat)
}

} // verus!
