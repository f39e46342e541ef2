//! Static configuration of the engine: which analytics run, the trace
//! window, and where the sinks point. Loading from files or the environment
//! is the embedding program's business; the library only holds the values
//! and their defaults.
use vstd::prelude::*;

verus! {

pub fn default_true() -> (b: bool)
    ensures
        b,
{
    true
}

pub fn default_port() -> (p: u16)
    ensures
        p == 4317,
{
    4317
}

pub fn default_algorithm() -> (s: String)
    ensures
        s@ == "isolation_forest"@,
{
    "isolation_forest".to_owned()
}

/// Default detector sensitivity, in fixed-point thousandths (0.95).
pub fn default_sensitivity_milli() -> (s: i64)
    ensures
        s == 950,
{
    950
}

pub fn default_window() -> (w: u64)
    ensures
        w == 300,
{
    300
}

pub fn default_update_interval() -> (u: u64)
    ensures
        u == 10,
{
    10
}

pub fn default_storage_type() -> (s: String)
    ensures
        s@ == "clickhouse"@,
{
    "clickhouse".to_owned()
}

/// Where telemetry arrives from.
#[derive(Debug)]
pub struct OtlpSourceConfig {
    pub endpoint: String,
    pub port: u16,
}

impl Clone for OtlpSourceConfig {
    fn clone(&self) -> (r: OtlpSourceConfig)
        ensures
            r.endpoint@ == self.endpoint@,
            r.port == self.port,
    {
        OtlpSourceConfig { endpoint: self.endpoint.clone(), port: self.port }
    }
}

#[derive(Debug)]
pub struct SourcesConfig {
    pub otlp: OtlpSourceConfig,
}

impl Clone for SourcesConfig {
    fn clone(&self) -> (r: SourcesConfig)
        ensures
            r.otlp.endpoint@ == self.otlp.endpoint@,
            r.otlp.port == self.otlp.port,
    {
        SourcesConfig { otlp: self.otlp.clone() }
    }
}

/// The anomaly detector's switches. Sensitivity is fixed-point thousandths.
#[derive(Debug)]
pub struct AnomalyDetectionConfig {
    pub enabled: bool,
    pub algorithm: String,
    pub sensitivity_milli: i64,
}

impl Clone for AnomalyDetectionConfig {
    fn clone(&self) -> (r: AnomalyDetectionConfig)
        ensures
            r.enabled == self.enabled,
            r.algorithm@ == self.algorithm@,
            r.sensitivity_milli == self.sensitivity_milli,
    {
        AnomalyDetectionConfig {
            enabled: self.enabled,
            algorithm: self.algorithm.clone(),
            sensitivity_milli: self.sensitivity_milli,
        }
    }
}

/// The trace correlator's switches: how long a trace stays in the window.
#[derive(Debug, Clone, Copy, PartialEq, Eq, Structural)]
pub struct TraceCorrelationConfig {
    pub enabled: bool,
    pub window_seconds: u64,
}

/// The topology discovery's switches.
#[derive(Debug, Clone, Copy, PartialEq, Eq, Structural)]
pub struct TopologyDiscoveryConfig {
    pub enabled: bool,
    pub update_interval_seconds: u64,
}

#[derive(Debug)]
pub struct AnalyticsConfig {
    pub anomaly_detection: AnomalyDetectionConfig,
    pub trace_correlation: TraceCorrelationConfig,
    pub topology_discovery: TopologyDiscoveryConfig,
}

impl Clone for AnalyticsConfig {
    fn clone(&self) -> (r: AnalyticsConfig)
        ensures
            r.anomaly_detection.enabled == self.anomaly_detection.enabled,
            r.anomaly_detection.algorithm@ == self.anomaly_detection.algorithm@,
            r.anomaly_detection.sensitivity_milli == self.anomaly_detection.sensitivity_milli,
            r.trace_correlation == self.trace_correlation,
            r.topology_discovery == self.topology_discovery,
    {
        AnalyticsConfig {
            anomaly_detection: self.anomaly_detection.clone(),
            trace_correlation: self.trace_correlation,
            topology_discovery: self.topology_discovery,
        }
    }
}

/// Where durable writes go.
#[derive(Debug)]
pub struct StorageSinkConfig {
    pub storage_type: String,
    pub endpoint: String,
    pub database: String,
    pub username: Option<String>,
    pub password: Option<String>,
}

impl Clone for StorageSinkConfig {
    fn clone(&self) -> (r: StorageSinkConfig)
        ensures
            r.storage_type@ == self.storage_type@,
            r.endpoint@ == self.endpoint@,
            r.database@ == self.database@,
            match (r.username, self.username) {
                (Some(a), Some(b)) => a@ == b@,
                (None, None) => true,
                _ => false,
            },
            match (r.password, self.password) {
                (Some(a), Some(b)) => a@ == b@,
                (None, None) => true,
                _ => false,
            },
    {
        StorageSinkConfig {
            storage_type: self.storage_type.clone(),
            endpoint: self.endpoint.clone(),
            database: self.database.clone(),
            username: match &self.username {
                Some(u) => Some(u.clone()),
                None => None,
            },
            password: match &self.password {
                Some(p) => Some(p.clone()),
                None => None,
            },
        }
    }
}

/// Where alerts are forwarded.
#[derive(Debug)]
pub struct AlertSinkConfig {
    pub enabled: bool,
    pub webhook_url: Option<String>,
    pub slack_webhook: Option<String>,
}

impl Clone for AlertSinkConfig {
    fn clone(&self) -> (r: AlertSinkConfig)
        ensures
            r.enabled == self.enabled,
            match (r.webhook_url, self.webhook_url) {
                (Some(a), Some(b)) => a@ == b@,
                (None, None) => true,
                _ => false,
            },
            match (r.slack_webhook, self.slack_webhook) {
                (Some(a), Some(b)) => a@ == b@,
                (None, None) => true,
                _ => false,
            },
    {
        AlertSinkConfig {
            enabled: self.enabled,
            webhook_url: match &self.webhook_url {
                Some(u) => Some(u.clone()),
                None => None,
            },
            slack_webhook: match &self.slack_webhook {
                Some(s) => Some(s.clone()),
                None => None,
            },
        }
    }
}

#[derive(Debug)]
pub struct SinksConfig {
    pub storage: StorageSinkConfig,
    pub alerts: AlertSinkConfig,
}

/// The whole engine configuration.
#[derive(Debug)]
pub struct Config {
    pub sources: SourcesConfig,
    pub analytics: AnalyticsConfig,
    pub sinks: SinksConfig,
}

impl Config {
    /// The built-in defaults: every analytic enabled, a 300 s trace window,
    /// and local endpoints.
    pub fn defaults() -> (c: Config)
        ensures
            c.analytics.anomaly_detection.enabled,
            c.analytics.trace_correlation.enabled,
            c.analytics.trace_correlation.window_seconds == 300,
            c.analytics.topology_discovery.enabled,
            c.analytics.topology_discovery.update_interval_seconds == 10,
            c.sources.otlp.port == 4317,
            c.sinks.alerts.enabled,
            c.sinks.alerts.webhook_url is None,
            c.sinks.alerts.slack_webhook is None,
    {
        Config {
            sources: SourcesConfig {
                otlp: OtlpSourceConfig { endpoint: "0.0.0.0".to_owned(), port: default_port() },
            },
            analytics: AnalyticsConfig {
                anomaly_detection: AnomalyDetectionConfig {
                    enabled: default_true(),
                    algorithm: default_algorithm(),
                    sensitivity_milli: default_sensitivity_milli(),
                },
                trace_correlation: TraceCorrelationConfig {
                    enabled: default_true(),
                    window_seconds: default_window(),
                },
                topology_discovery: TopologyDiscoveryConfig {
                    enabled: default_true(),
                    update_interval_seconds: default_update_interval(),
                },
            },
            sinks: SinksConfig {
                storage: StorageSinkConfig {
                    storage_type: default_storage_type(),
                    endpoint: "localhost:9000".to_owned(),
                    database: "ollystack".to_owned(),
                    username: None,
                    password: None,
                },
                alerts: AlertSinkConfig {
                    enabled: default_true(),
                    webhook_url: None,
                    slack_webhook: None,
                },
            },
        }
    }
}

} // verus!
