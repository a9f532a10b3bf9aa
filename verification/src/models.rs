//! Configuration and the live state of the upstreams.

use vstd::prelude::*;
use vstd::string::StringExecFns;

use crate::string_map::StringMap;
use crate::text::{is_blank, push_decimal, same_text};

verus! {

/// The live state of every upstream, by endpoint.
pub type ServerStateDb = StringMap<ServerState>;

/// The configuration of every upstream, by endpoint.
pub type ServerConfigDb = StringMap<Server>;

// ---------------------------------------------------------------------------
// Defaults of the optional config fields
// ---------------------------------------------------------------------------

pub fn default_max_connections() -> (r: usize)
    ensures
        r == 10_000,
{
    10_000
}

pub fn default_handshake_timeout_ms() -> (r: u64)
    ensures
        r == 10_000,
{
    10_000
}

/// 0: no idle timeout.
pub fn default_idle_timeout_ms() -> (r: u64)
    ensures
        r == 0,
{
    0
}

/// 256 MiB.
pub fn default_max_message_bytes() -> (r: usize)
    ensures
        r == 256 * 1024 * 1024,
{
    268_435_456
}

pub fn default_shutdown_grace_ms() -> (r: u64)
    ensures
        r == 5_000,
{
    5_000
}

// ---------------------------------------------------------------------------
// Upstreams as configured
// ---------------------------------------------------------------------------

/// A single upstream SHiP node, as declared in `config.json`.
#[derive(Debug, Hash, PartialEq, Eq)]
pub struct Server {
    /// Human-readable name used in logs.
    pub name: String,
    /// Upstream WebSocket endpoint as `host:port` (no scheme; `ws://` is prepended).
    pub endpoint: String,
    /// Whether the router is allowed to use this upstream.
    pub enabled: bool,
}

impl Clone for Server {
    fn clone(&self) -> (copy: Self)
        ensures
            copy == *self,
    {
        Server {
            name: self.name.clone(),
            endpoint: self.endpoint.clone(),
            enabled: self.enabled,
        }
    }
}

impl Server {
    /// The URL of the upstream.
    pub fn ws_url(&self) -> (url: String)
        ensures
            url@ == "ws://"@ + self.endpoint@,
    {
        let mut url = "ws://".to_owned();
        url.append(&self.endpoint);
        url
    }
}

/// The on-disk `config.json` schema.
#[derive(Debug)]
pub struct ServerConfig {
    /// Address the proxy listens on for client connections.
    pub listen_address: String,
    /// Port the proxy listens on for client connections.
    pub listen_port: u16,
    /// Interval (ms) between reconnection attempts to a downed upstream.
    pub upstream_reconnect_ms: u64,
    /// Interval (ms) at which upstream status is logged.
    pub upstream_monitoring_ms: u64,
    /// Interval (ms) at which status requests are sent to upstreams.
    pub upstream_status_ms: u64,
    /// The upstream SHiP nodes to load-balance across.
    pub servers: Vec<Server>,
    /// Maximum number of concurrent client connections accepted (backpressure).
    pub max_connections: usize,
    /// Timeout (ms) for completing the client WebSocket handshake. 0 = disabled.
    pub handshake_timeout_ms: u64,
    /// Idle timeout (ms): close a connection that exchanges no data for this long. 0 = disabled.
    pub idle_timeout_ms: u64,
    /// Maximum WebSocket message size (bytes) accepted on both client and upstream links.
    pub max_message_bytes: usize,
    /// How long (ms) to wait for in-flight connections to drain on shutdown.
    pub shutdown_grace_ms: u64,
    /// Optional address for the HTTP health/metrics endpoint. Defaults to `listen_address`.
    pub metrics_address: Option<String>,
    /// Optional port for the HTTP health/metrics endpoint. When unset, the endpoint is disabled.
    pub metrics_port: Option<u16>,
}

/// What is wrong with a configuration.
#[derive(Debug, PartialEq, Eq)]
pub enum ConfigError {
    EmptyListenAddress,
    ZeroListenPort,
    ZeroReconnectInterval,
    ZeroMonitoringInterval,
    ZeroStatusInterval,
    ZeroMaxConnections,
    ZeroMaxMessageBytes,
    NoServers,
    NoEnabledServer,
    EmptyEndpoint { name: String },
    DuplicateEndpoint { endpoint: String },
    ZeroMetricsPort,
}

/// The model of a `ConfigError`.
pub enum ConfigFault {
    EmptyListenAddress,
    ZeroListenPort,
    ZeroReconnectInterval,
    ZeroMonitoringInterval,
    ZeroStatusInterval,
    ZeroMaxConnections,
    ZeroMaxMessageBytes,
    NoServers,
    NoEnabledServer,
    EmptyEndpoint { name: Seq<char> },
    DuplicateEndpoint { endpoint: Seq<char> },
    ZeroMetricsPort,
}

impl View for ConfigError {
    type V = ConfigFault;

    open spec fn view(&self) -> ConfigFault {
        match self {
            ConfigError::EmptyListenAddress => ConfigFault::EmptyListenAddress,
            ConfigError::ZeroListenPort => ConfigFault::ZeroListenPort,
            ConfigError::ZeroReconnectInterval => ConfigFault::ZeroReconnectInterval,
            ConfigError::ZeroMonitoringInterval => ConfigFault::ZeroMonitoringInterval,
            ConfigError::ZeroStatusInterval => ConfigFault::ZeroStatusInterval,
            ConfigError::ZeroMaxConnections => ConfigFault::ZeroMaxConnections,
            ConfigError::ZeroMaxMessageBytes => ConfigFault::ZeroMaxMessageBytes,
            ConfigError::NoServers => ConfigFault::NoServers,
            ConfigError::NoEnabledServer => ConfigFault::NoEnabledServer,
            ConfigError::EmptyEndpoint { name } => ConfigFault::EmptyEndpoint { name: name@ },
            ConfigError::DuplicateEndpoint { endpoint } => ConfigFault::DuplicateEndpoint {
                endpoint: endpoint@,
            },
            ConfigError::ZeroMetricsPort => ConfigFault::ZeroMetricsPort,
        }
    }
}

/// The text that tells the operator what is wrong.
pub open spec fn fault_message(fault: ConfigFault) -> Seq<char> {
    match fault {
        ConfigFault::EmptyListenAddress => "listen_address must not be empty"@,
        ConfigFault::ZeroListenPort => "listen_port must be non-zero"@,
        ConfigFault::ZeroReconnectInterval => "upstream_reconnect_ms must be greater than 0"@,
        ConfigFault::ZeroMonitoringInterval => "upstream_monitoring_ms must be greater than 0"@,
        ConfigFault::ZeroStatusInterval => "upstream_status_ms must be greater than 0"@,
        ConfigFault::ZeroMaxConnections => "max_connections must be greater than 0"@,
        ConfigFault::ZeroMaxMessageBytes => "max_message_bytes must be greater than 0"@,
        ConfigFault::NoServers => "config must define at least one server"@,
        ConfigFault::NoEnabledServer => "config must have at least one enabled server"@,
        ConfigFault::EmptyEndpoint { name } => "server '"@ + name + "' has an empty endpoint"@,
        ConfigFault::DuplicateEndpoint { endpoint } => "duplicate upstream endpoint '"@ + endpoint
            + "' \u{2014} endpoints must be unique"@,
        ConfigFault::ZeroMetricsPort => "metrics_port must be non-zero when set"@,
    }
}

impl ConfigError {
    /// The text that tells the operator what is wrong.
    pub fn message(&self) -> (text: String)
        ensures
            text@ == fault_message(self@),
    {
        match self {
            ConfigError::EmptyListenAddress => "listen_address must not be empty".to_owned(),
            ConfigError::ZeroListenPort => "listen_port must be non-zero".to_owned(),
            ConfigError::ZeroReconnectInterval => {
                "upstream_reconnect_ms must be greater than 0".to_owned()
            },
            ConfigError::ZeroMonitoringInterval => {
                "upstream_monitoring_ms must be greater than 0".to_owned()
            },
            ConfigError::ZeroStatusInterval => {
                "upstream_status_ms must be greater than 0".to_owned()
            },
            ConfigError::ZeroMaxConnections => "max_connections must be greater than 0".to_owned(),
            ConfigError::ZeroMaxMessageBytes => {
                "max_message_bytes must be greater than 0".to_owned()
            },
            ConfigError::NoServers => "config must define at least one server".to_owned(),
            ConfigError::NoEnabledServer => {
                "config must have at least one enabled server".to_owned()
            },
            ConfigError::EmptyEndpoint { name } => {
                let mut text = "server '".to_owned();
                text.append(name);
                text.append("' has an empty endpoint");
                text
            },
            ConfigError::DuplicateEndpoint { endpoint } => {
                let mut text = "duplicate upstream endpoint '".to_owned();
                text.append(endpoint);
                text.append("' \u{2014} endpoints must be unique");
                text
            },
            ConfigError::ZeroMetricsPort => "metrics_port must be non-zero when set".to_owned(),
        }
    }
}

/// Whether some enabled server among the first `n` has this endpoint.
pub open spec fn enabled_endpoint(servers: Seq<Server>, n: int, endpoint: Seq<char>) -> bool {
    exists|j: int|
        0 <= j < n && (#[trigger] servers[j]).enabled && servers[j].endpoint@ == endpoint
}

/// Whether some server among the first `n`, enabled or not, has this endpoint.
pub open spec fn listed_endpoint(servers: Seq<Server>, n: int, endpoint: Seq<char>) -> bool {
    exists|j: int| 0 <= j < n && (#[trigger] servers[j]).endpoint@ == endpoint
}

/// What is wrong with the endpoint of server `i`, given the servers before it: that of an
/// enabled server must not be blank, and none may be listed twice.
pub open spec fn endpoint_fault_at(servers: Seq<Server>, i: int) -> Option<ConfigFault> {
    let s = servers[i];
    if s.enabled && crate::text::blank(s.endpoint@) {
        Some(ConfigFault::EmptyEndpoint { name: s.name@ })
    } else if listed_endpoint(servers, i, s.endpoint@) {
        Some(ConfigFault::DuplicateEndpoint { endpoint: s.endpoint@ })
    } else {
        None
    }
}

/// The first fault in the endpoints of the first `n` servers.
pub open spec fn endpoint_fault(servers: Seq<Server>, n: int) -> Option<ConfigFault>
    decreases n,
{
    if n <= 0 {
        None
    } else {
        match endpoint_fault(servers, n - 1) {
            Some(fault) => Some(fault),
            None => endpoint_fault_at(servers, n - 1),
        }
    }
}

/// Whether some server is enabled.
pub open spec fn any_enabled(servers: Seq<Server>) -> bool {
    exists|i: int| 0 <= i < servers.len() && (#[trigger] servers[i]).enabled
}

/// The first thing that is wrong with a configuration, in the order in which the
/// checks are made.
pub open spec fn config_fault(c: ServerConfig) -> Option<ConfigFault> {
    if crate::text::blank(c.listen_address@) {
        Some(ConfigFault::EmptyListenAddress)
    } else if c.listen_port == 0 {
        Some(ConfigFault::ZeroListenPort)
    } else if c.upstream_reconnect_ms == 0 {
        Some(ConfigFault::ZeroReconnectInterval)
    } else if c.upstream_monitoring_ms == 0 {
        Some(ConfigFault::ZeroMonitoringInterval)
    } else if c.upstream_status_ms == 0 {
        Some(ConfigFault::ZeroStatusInterval)
    } else if c.max_connections == 0 {
        Some(ConfigFault::ZeroMaxConnections)
    } else if c.max_message_bytes == 0 {
        Some(ConfigFault::ZeroMaxMessageBytes)
    } else if c.servers@.len() == 0 {
        Some(ConfigFault::NoServers)
    } else if !any_enabled(c.servers@) {
        Some(ConfigFault::NoEnabledServer)
    } else if endpoint_fault(c.servers@, c.servers@.len() as int) is Some {
        endpoint_fault(c.servers@, c.servers@.len() as int)
    } else if c.metrics_port == Some(0u16) {
        Some(ConfigFault::ZeroMetricsPort)
    } else {
        None
    }
}

proof fn lemma_endpoint_fault_stays(servers: Seq<Server>, m: int, n: int)
    requires
        m <= n,
        endpoint_fault(servers, m) is Some,
    ensures
        endpoint_fault(servers, n) == endpoint_fault(servers, m),
    decreases n - m,
{
    if m < n {
        lemma_endpoint_fault_stays(servers, m, n - 1);
    }
}

/// Among the first `n` servers, no enabled one has a blank endpoint, and no two share one.
pub open spec fn endpoints_sound(servers: Seq<Server>, n: int) -> bool {
    &&& forall|i: int|
        0 <= i < n && (#[trigger] servers[i]).enabled ==> !crate::text::blank(servers[i].endpoint@)
    &&& forall|i: int, j: int|
        0 <= i < j < n ==> (#[trigger] servers[i]).endpoint@ != (#[trigger] servers[j]).endpoint@
}

proof fn lemma_endpoints_sound(servers: Seq<Server>, n: int)
    requires
        0 <= n <= servers.len(),
    ensures
        endpoint_fault(servers, n) is None <==> endpoints_sound(servers, n),
    decreases n,
{
    if n > 0 {
        lemma_endpoints_sound(servers, n - 1);
        let s = servers[n - 1];
        if endpoint_fault(servers, n) is None {
            assert forall|i: int, j: int| 0 <= i < j < n implies (#[trigger] servers[i]).endpoint@
                != (#[trigger] servers[j]).endpoint@ by {
                if j == n - 1 {
                    assert(!listed_endpoint(servers, n - 1, s.endpoint@));
                }
            }
        }
        if endpoints_sound(servers, n) {
            assert(endpoints_sound(servers, n - 1));
        }
    }
}

/// A configuration passes exactly where its address is not blank, its port, its
/// intervals and its limits are not zero, some server is enabled, no enabled server has a
/// blank endpoint, no two servers share one, and the metrics port, where it is set, is
/// not zero.
pub proof fn law_valid_config(c: ServerConfig)
    ensures
        config_fault(c) is None <==> {
            &&& !crate::text::blank(c.listen_address@)
            &&& c.listen_port != 0
            &&& c.upstream_reconnect_ms != 0
            &&& c.upstream_monitoring_ms != 0
            &&& c.upstream_status_ms != 0
            &&& c.max_connections != 0
            &&& c.max_message_bytes != 0
            &&& any_enabled(c.servers@)
            &&& endpoints_sound(c.servers@, c.servers@.len() as int)
            &&& c.metrics_port != Some(0u16)
        },
{
    lemma_endpoints_sound(c.servers@, c.servers@.len() as int);
}

/// Which fault is reported: the first one of a fixed order that the configuration has. Each
/// is reported exactly where the configuration has it and none of those before it.
pub proof fn law_first_fault_reported(c: ServerConfig)
    ensures
        ({
            let fault = config_fault(c);
            let address = forall|i: int|
                0 <= i < c.listen_address@.len() ==> crate::text::white_space(
                    #[trigger] c.listen_address@[i],
                );
            let enabled = exists|i: int|
                0 <= i < c.servers@.len() && (#[trigger] c.servers@[i]).enabled;
            let limits = c.listen_port == 0 || c.upstream_reconnect_ms == 0
                || c.upstream_monitoring_ms == 0 || c.upstream_status_ms == 0 || c.max_connections
                == 0 || c.max_message_bytes == 0;
            &&& address <==> fault == Some(ConfigFault::EmptyListenAddress)
            &&& !address ==> {
                &&& c.listen_port == 0 <==> fault == Some(ConfigFault::ZeroListenPort)
                &&& c.listen_port != 0 ==> {
                    &&& c.upstream_reconnect_ms == 0 <==> fault == Some(
                        ConfigFault::ZeroReconnectInterval,
                    )
                    &&& c.upstream_reconnect_ms != 0 ==> {
                        &&& c.upstream_monitoring_ms == 0 <==> fault == Some(
                            ConfigFault::ZeroMonitoringInterval,
                        )
                        &&& c.upstream_monitoring_ms != 0 ==> {
                            &&& c.upstream_status_ms == 0 <==> fault == Some(
                                ConfigFault::ZeroStatusInterval,
                            )
                            &&& c.upstream_status_ms != 0 ==> {
                                &&& c.max_connections == 0 <==> fault == Some(
                                    ConfigFault::ZeroMaxConnections,
                                )
                                &&& c.max_connections != 0 ==> (c.max_message_bytes == 0 <==> fault
                                    == Some(ConfigFault::ZeroMaxMessageBytes))
                            }
                        }
                    }
                }
            }
            &&& !address && !limits ==> {
                &&& c.servers@.len() == 0 <==> fault == Some(ConfigFault::NoServers)
                &&& c.servers@.len() > 0 ==> (!enabled <==> fault == Some(
                    ConfigFault::NoEnabledServer,
                ))
            }
            &&& fault == Some(ConfigFault::ZeroMetricsPort) ==> c.metrics_port == Some(0u16)
        }),
{
    crate::text::law_no_word(c.listen_address@);
    let n = c.servers@.len() as int;
    if endpoint_fault(c.servers@, n) is Some {
        lemma_endpoint_fault_real(c.servers@, n);
    }
}

proof fn lemma_endpoint_fault_real(servers: Seq<Server>, n: int)
    requires
        0 <= n <= servers.len(),
        endpoint_fault(servers, n) is Some,
    ensures
        match endpoint_fault(servers, n)->0 {
            ConfigFault::EmptyEndpoint { name } => exists|i: int|
                0 <= i < n && (#[trigger] servers[i]).enabled && servers[i].name@ == name
                    && crate::text::blank(servers[i].endpoint@),
            ConfigFault::DuplicateEndpoint { endpoint } => exists|i: int, j: int|
                0 <= i < j < n && (#[trigger] servers[i]).endpoint@ == endpoint && (
                #[trigger] servers[j]).endpoint@ == endpoint,
            _ => false,
        },
    decreases n,
{
    if endpoint_fault(servers, n - 1) is Some {
        lemma_endpoint_fault_real(servers, n - 1);
    } else {
        let s = servers[n - 1];
        if s.enabled && crate::text::blank(s.endpoint@) {
            assert(servers[n - 1].name@ == s.name@);
        } else {
            let i = choose|i: int|
                0 <= i < n - 1 && (#[trigger] servers[i]).endpoint@ == s.endpoint@;
            assert(servers[i].endpoint@ == servers[n - 1].endpoint@);
        }
    }
}

proof fn lemma_first_endpoint_fault(servers: Seq<Server>, n: int) -> (m: int)
    requires
        0 <= n <= servers.len(),
        endpoint_fault(servers, n) is Some,
    ensures
        0 <= m < n,
        endpoints_sound(servers, m),
        endpoint_fault(servers, n) == endpoint_fault_at(servers, m),
    decreases n,
{
    if endpoint_fault(servers, n - 1) is Some {
        lemma_first_endpoint_fault(servers, n - 1)
    } else {
        lemma_endpoints_sound(servers, n - 1);
        n - 1
    }
}

/// Of several faults in the endpoints, the one of the first server that has any is reported:
/// among those before it no endpoint is wrong. That an enabled server has none comes before
/// that it has one of those before it.
pub proof fn law_first_endpoint_fault(c: ServerConfig)
    requires
        config_fault(c) matches Some(fault) && (fault is EmptyEndpoint
            || fault is DuplicateEndpoint),
    ensures
        exists|m: int|
            {
                let s = #[trigger] c.servers@[m];
                &&& 0 <= m < c.servers@.len()
                &&& forall|i: int|
                    0 <= i < m && (#[trigger] c.servers@[i]).enabled ==> !crate::text::blank(
                        c.servers@[i].endpoint@,
                    )
                &&& forall|i: int, j: int|
                    0 <= i < j < m ==> (#[trigger] c.servers@[i]).endpoint@ != (
                    #[trigger] c.servers@[j]).endpoint@
                &&& config_fault(c)->0 == if s.enabled && crate::text::blank(s.endpoint@) {
                    ConfigFault::EmptyEndpoint { name: s.name@ }
                } else {
                    ConfigFault::DuplicateEndpoint { endpoint: s.endpoint@ }
                }
            },
{
    let n = c.servers@.len() as int;
    let m = lemma_first_endpoint_fault(c.servers@, n);
    assert(c.servers@[m] == c.servers@[m]);
}

/// What a fault of an endpoint names is there: an enabled server of that name with nothing
/// but white space for an endpoint, or two servers with that endpoint.
pub proof fn law_endpoint_faults_name_servers(c: ServerConfig)
    ensures
        match config_fault(c) {
            Some(ConfigFault::EmptyEndpoint { name }) => exists|i: int|
                0 <= i < c.servers@.len() && (#[trigger] c.servers@[i]).enabled
                    && c.servers@[i].name@ == name && crate::text::blank(c.servers@[i].endpoint@),
            Some(ConfigFault::DuplicateEndpoint { endpoint }) => exists|i: int, j: int|
                0 <= i < j < c.servers@.len() && (#[trigger] c.servers@[i]).endpoint@ == endpoint
                    && (#[trigger] c.servers@[j]).endpoint@ == endpoint,
            _ => true,
        },
{
    let n = c.servers@.len() as int;
    if endpoint_fault(c.servers@, n) is Some {
        lemma_endpoint_fault_real(c.servers@, n);
    }
}

/// A configuration that passes: it has an address, a port, intervals and limits, at least
/// one enabled server, no enabled server without an endpoint, no endpoint twice, enabled or
/// not, and no metrics port of 0.
pub proof fn law_passing_config(c: ServerConfig)
    ensures
        config_fault(c) is None <==> {
            &&& exists|i: int|
                0 <= i < c.listen_address@.len() && !crate::text::white_space(
                    #[trigger] c.listen_address@[i],
                )
            &&& c.listen_port > 0 && c.upstream_reconnect_ms > 0 && c.upstream_monitoring_ms > 0
                && c.upstream_status_ms > 0 && c.max_connections > 0 && c.max_message_bytes > 0
            &&& exists|i: int| 0 <= i < c.servers@.len() && (#[trigger] c.servers@[i]).enabled
            &&& forall|i: int|
                0 <= i < c.servers@.len() && (#[trigger] c.servers@[i]).enabled ==> exists|j: int|
                    0 <= j < c.servers@[i].endpoint@.len() && !crate::text::white_space(
                        #[trigger] c.servers@[i].endpoint@[j],
                    )
            &&& forall|i: int, j: int|
                0 <= i < j < c.servers@.len() ==> (#[trigger] c.servers@[i]).endpoint@ != (
                #[trigger] c.servers@[j]).endpoint@
            &&& c.metrics_port matches Some(port) ==> port > 0
        },
{
    law_valid_config(c);
}

/// Whether some server is enabled.
fn has_enabled(servers: &Vec<Server>) -> (r: bool)
    ensures
        r == any_enabled(servers@),
{
    let mut i: usize = 0;
    while i < servers.len()
        invariant
            i <= servers.len(),
            forall|j: int| 0 <= j < i ==> !(#[trigger] servers@[j]).enabled,
        decreases servers.len() - i,
    {
        if servers[i].enabled {
            assert(servers@[i as int].enabled);
            return true;
        }
        i += 1;
    }
    false
}

/// Whether some server among the first `n`, enabled or not, has this endpoint.
fn seen_before(servers: &Vec<Server>, n: usize, endpoint: &str) -> (r: bool)
    requires
        n <= servers.len(),
    ensures
        r == listed_endpoint(servers@, n as int, endpoint@),
{
    let mut i: usize = 0;
    while i < n
        invariant
            i <= n <= servers.len(),
            !listed_endpoint(servers@, i as int, endpoint@),
        decreases n - i,
    {
        if same_text(&servers[i].endpoint, endpoint) {
            assert(servers@[i as int].endpoint@ == endpoint@);
            return true;
        }
        i += 1;
    }
    false
}

impl ServerConfig {
    /// Validate the configuration, returning a clear error for any invalid field.
    pub fn validate(&self) -> (r: Result<(), ConfigError>)
        ensures
            match r {
                Ok(()) => config_fault(*self) is None,
                Err(e) => config_fault(*self) == Some(e@),
            },
    {
        if is_blank(&self.listen_address) {
            return Err(ConfigError::EmptyListenAddress);
        }
        if self.listen_port == 0 {
            return Err(ConfigError::ZeroListenPort);
        }
        if self.upstream_reconnect_ms == 0 {
            return Err(ConfigError::ZeroReconnectInterval);
        }
        if self.upstream_monitoring_ms == 0 {
            return Err(ConfigError::ZeroMonitoringInterval);
        }
        if self.upstream_status_ms == 0 {
            return Err(ConfigError::ZeroStatusInterval);
        }
        if self.max_connections == 0 {
            return Err(ConfigError::ZeroMaxConnections);
        }
        if self.max_message_bytes == 0 {
            return Err(ConfigError::ZeroMaxMessageBytes);
        }
        if self.servers.len() == 0 {
            return Err(ConfigError::NoServers);
        }
        if !has_enabled(&self.servers) {
            return Err(ConfigError::NoEnabledServer);
        }
        let mut i: usize = 0;
        while i < self.servers.len()
            invariant
                i <= self.servers.len(),
                endpoint_fault(self.servers@, i as int) is None,
                !crate::text::blank(self.listen_address@),
                self.listen_port != 0,
                self.upstream_reconnect_ms != 0,
                self.upstream_monitoring_ms != 0,
                self.upstream_status_ms != 0,
                self.max_connections != 0,
                self.max_message_bytes != 0,
                self.servers@.len() != 0,
                any_enabled(self.servers@),
            decreases self.servers.len() - i,
        {
            let s = &self.servers[i];
            let fault: Option<ConfigError> = if s.enabled && is_blank(&s.endpoint) {
                Some(ConfigError::EmptyEndpoint { name: s.name.clone() })
            } else if seen_before(&self.servers, i, &s.endpoint) {
                Some(ConfigError::DuplicateEndpoint { endpoint: s.endpoint.clone() })
            } else {
                None
            };
            if let Some(e) = fault {
                proof {
                    assert(endpoint_fault(self.servers@, i + 1) == Some(e@));
                    lemma_endpoint_fault_stays(self.servers@, i + 1, self.servers@.len() as int);
                }
                return Err(e);
            }
            i += 1;
        }
        if let Some(port) = self.metrics_port {
            if port == 0 {
                return Err(ConfigError::ZeroMetricsPort);
            }
        }
        Ok(())
    }

    /// The per-connection proxy limits derived from this config.
    pub fn proxy_limits(&self) -> (limits: ProxyLimits)
        ensures
            limits == (ProxyLimits {
                handshake_timeout_ms: self.handshake_timeout_ms,
                idle_timeout_ms: self.idle_timeout_ms,
                max_message_bytes: self.max_message_bytes,
            }),
    {
        ProxyLimits {
            handshake_timeout_ms: self.handshake_timeout_ms,
            idle_timeout_ms: self.idle_timeout_ms,
            max_message_bytes: self.max_message_bytes,
        }
    }
}

/// The host and the port of an address.
pub open spec fn socket_address(host: Seq<char>, port: u16) -> Seq<char> {
    host + ":"@ + crate::text::decimal(port as nat)
}

fn join_address(host: &str, port: u16) -> (addr: String)
    ensures
        addr@ == socket_address(host@, port),
{
    let mut addr = host.to_owned();
    addr.append(":");
    push_decimal(&mut addr, port as u128);
    addr
}

impl ServerConfig {
    /// The interval settings of the background monitoring tasks.
    pub fn static_config(&self) -> (c: StaticConfig)
        ensures
            c == (StaticConfig {
                upstream_reconnect_ms: self.upstream_reconnect_ms,
                upstream_monitoring_ms: self.upstream_monitoring_ms,
                upstream_status_ms: self.upstream_status_ms,
            }),
    {
        StaticConfig {
            upstream_reconnect_ms: self.upstream_reconnect_ms,
            upstream_monitoring_ms: self.upstream_monitoring_ms,
            upstream_status_ms: self.upstream_status_ms,
        }
    }

    /// The address on which the proxy listens.
    pub fn bind_addr(&self) -> (addr: String)
        ensures
            addr@ == socket_address(self.listen_address@, self.listen_port),
    {
        join_address(&self.listen_address, self.listen_port)
    }

    /// The address of the health/metrics endpoint, where it is enabled. Without an address
    /// of its own it shares that of the proxy.
    pub fn metrics_addr(&self) -> (addr: Option<String>)
        ensures
            match addr {
                Some(a) => self.metrics_port is Some && a@ == socket_address(
                    match self.metrics_address {
                        Some(host) => host@,
                        None => self.listen_address@,
                    },
                    self.metrics_port->0,
                ),
                None => self.metrics_port is None,
            },
    {
        match self.metrics_port {
            Some(port) => match &self.metrics_address {
                Some(host) => Some(join_address(host, port)),
                None => Some(join_address(&self.listen_address, port)),
            },
            None => None,
        }
    }

    /// The enabled upstreams, which are monitored, in the order of the configuration.
    pub fn enabled_servers(&self) -> (servers: Vec<Server>)
        ensures
            servers@ == self.servers@.filter(|s: Server| s.enabled),
    {
        let mut servers: Vec<Server> = Vec::new();
        let mut i: usize = 0;
        let ghost keep = |s: Server| s.enabled;
        proof {
            reveal(Seq::filter);
            assert(self.servers@.take(0).filter(keep) =~= Seq::empty());
        }
        while i < self.servers.len()
            invariant
                i <= self.servers.len(),
                keep == (|s: Server| s.enabled),
                servers@ == self.servers@.take(i as int).filter(keep),
            decreases self.servers.len() - i,
        {
            proof {
                reveal(Seq::filter);
                assert(self.servers@.take(i + 1).drop_last() =~= self.servers@.take(i as int));
                assert(self.servers@.take(i + 1).last() == self.servers@[i as int]);
            }
            if self.servers[i].enabled {
                servers.push(self.servers[i].clone());
            }
            i += 1;
        }
        assert(self.servers@.take(self.servers@.len() as int) =~= self.servers@);
        servers
    }
}

// ---------------------------------------------------------------------------
// Upstreams as they run
// ---------------------------------------------------------------------------

/// Live state tracked per upstream by the monitoring loop and the proxy.
#[derive(Debug, Clone, Copy, PartialEq, Eq)]
pub struct ServerState {
    /// Active client connections currently routed to this upstream.
    pub connections: usize,
    pub enabled: bool,
    pub online: bool,
    /// Set by the monitoring loop when an upstream stops advancing its chain
    /// state. Stale upstreams are deprioritized (but not excluded) when routing.
    pub stale: bool,
    pub trace_begin_block: u32,
    pub trace_end_block: u32,
    pub chain_state_begin_block: u32,
    pub chain_state_end_block: u32,
}

/// The state of an upstream of which nothing is known yet.
pub open spec fn fresh_state() -> ServerState {
    ServerState {
        connections: 0,
        enabled: true,
        online: false,
        stale: false,
        trace_begin_block: 0,
        trace_end_block: 0,
        chain_state_begin_block: 0,
        chain_state_end_block: 0,
    }
}

impl ServerState {
    /// An upstream of which nothing is known yet: enabled, not online.
    pub fn new() -> (state: ServerState)
        ensures
            state == fresh_state(),
    {
        ServerState {
            connections: 0,
            enabled: true,
            online: false,
            stale: false,
            trace_begin_block: 0,
            trace_end_block: 0,
            chain_state_begin_block: 0,
            chain_state_end_block: 0,
        }
    }
}

impl Default for ServerState {
    fn default() -> (state: Self)
        ensures
            state == fresh_state(),
    {
        Self::new()
    }
}

/// Interval settings shared with the background monitoring tasks.
#[derive(Debug, Clone, Copy)]
pub struct StaticConfig {
    pub upstream_reconnect_ms: u64,
    pub upstream_monitoring_ms: u64,
    pub upstream_status_ms: u64,
}

/// Per-connection limits applied by the proxy data path.
#[derive(Debug, Clone, Copy)]
pub struct ProxyLimits {
    pub handshake_timeout_ms: u64,
    pub idle_timeout_ms: u64,
    pub max_message_bytes: usize,
}

/// The configuration under each enabled endpoint among the first `n` servers; the
/// last one of several with the same endpoint.
pub open spec fn config_map(servers: Seq<Server>, n: int) -> Map<Seq<char>, Server>
    decreases n,
{
    if n <= 0 {
        Map::empty()
    } else if servers[n - 1].enabled {
        config_map(servers, n - 1).insert(servers[n - 1].endpoint@, servers[n - 1])
    } else {
        config_map(servers, n - 1)
    }
}

/// A fresh state under each enabled endpoint.
pub open spec fn state_map(servers: Seq<Server>) -> Map<Seq<char>, ServerState> {
    Map::new(
        |e: Seq<char>| enabled_endpoint(servers, servers.len() as int, e),
        |e: Seq<char>| fresh_state(),
    )
}

/// The endpoints of the configurations are those of the enabled servers.
pub proof fn law_config_map_endpoints(servers: Seq<Server>, n: int)
    requires
        0 <= n <= servers.len(),
    ensures
        forall|e: Seq<char>| #[trigger]
            config_map(servers, n).contains_key(e) <==> enabled_endpoint(servers, n, e),
        forall|e: Seq<char>| #[trigger]
            config_map(servers, n).contains_key(e) ==> config_map(servers, n)[e].endpoint@ == e
                && config_map(servers, n)[e].enabled,
    decreases n,
{
    if n > 0 {
        law_config_map_endpoints(servers, n - 1);
        let s = servers[n - 1];
        let before = config_map(servers, n - 1);
        assert forall|e: Seq<char>|
            #![trigger config_map(servers, n).contains_key(e)]
            (config_map(servers, n).contains_key(e) <==> enabled_endpoint(servers, n, e)) && (
            config_map(servers, n).contains_key(e) ==> config_map(servers, n)[e].endpoint@ == e
                && config_map(servers, n)[e].enabled) by {
            assert(before.contains_key(e) <==> enabled_endpoint(servers, n - 1, e));
            if enabled_endpoint(servers, n, e) {
                let j = choose|j: int|
                    0 <= j < n && (#[trigger] servers[j]).enabled && servers[j].endpoint@ == e;
                if j < n - 1 {
                    assert(servers[j].enabled);
                    assert(enabled_endpoint(servers, n - 1, e));
                }
            }
            if s.enabled && s.endpoint@ == e {
                assert(servers[n - 1].enabled);
            }
        }
    }
}

/// Every upstream with a live state has a configuration, and the other way round.
pub proof fn law_dbs_agree(servers: Seq<Server>)
    ensures
        state_map(servers).dom() == config_map(servers, servers.len() as int).dom(),
{
    law_config_map_endpoints(servers, servers.len() as int);
    assert forall|e: Seq<char>|
        state_map(servers).dom().contains(e) == config_map(
            servers,
            servers.len() as int,
        ).dom().contains(e) by {
        assert(state_map(servers).contains_key(e) == enabled_endpoint(
            servers,
            servers.len() as int,
            e,
        ));
        assert(config_map(servers, servers.len() as int).contains_key(e) <==> enabled_endpoint(
            servers,
            servers.len() as int,
            e,
        ));
    }
    assert(state_map(servers).dom() =~= config_map(servers, servers.len() as int).dom());
}

/// The tables of a configuration without a repeated endpoint: every enabled server has its
/// own configuration and its own state under its endpoint, and nothing else stands in them.
/// An upstream starts enabled, offline and fresh, without connections or known blocks.
pub proof fn law_tables_of_servers(servers: Seq<Server>)
    requires
        forall|i: int, j: int|
            0 <= i < j < servers.len() ==> (#[trigger] servers[i]).endpoint@ != (
            #[trigger] servers[j]).endpoint@,
    ensures
        ({
            let configs = config_map(servers, servers.len() as int);
            let states = state_map(servers);
            &&& forall|i: int|
                0 <= i < servers.len() && (#[trigger] servers[i]).enabled ==> {
                    &&& configs.contains_key(servers[i].endpoint@)
                    &&& configs[servers[i].endpoint@] == servers[i]
                    &&& states.contains_key(servers[i].endpoint@)
                }
            &&& forall|i: int|
                0 <= i < servers.len() && !(#[trigger] servers[i]).enabled ==> {
                    &&& !configs.contains_key(servers[i].endpoint@)
                    &&& !states.contains_key(servers[i].endpoint@)
                }
            &&& forall|k: Seq<char>|
                configs.contains_key(k) || #[trigger] states.contains_key(k) ==> exists|i: int|
                    0 <= i < servers.len() && (#[trigger] servers[i]).endpoint@ == k
            &&& forall|k: Seq<char>| #[trigger]
                states.contains_key(k) ==> states[k].enabled && !states[k].online
                    && !states[k].stale && states[k].connections == 0
                    && states[k].trace_begin_block == 0 && states[k].trace_end_block == 0
                    && states[k].chain_state_begin_block == 0 && states[k].chain_state_end_block
                    == 0
        }),
{
    let n = servers.len() as int;
    let configs = config_map(servers, n);
    let states = state_map(servers);
    law_config_map_endpoints(servers, n);
    assert forall|i: int| 0 <= i < n && (#[trigger] servers[i]).enabled implies {
        &&& configs.contains_key(servers[i].endpoint@)
        &&& configs[servers[i].endpoint@] == servers[i]
        &&& states.contains_key(servers[i].endpoint@)
    } by {
        assert(enabled_endpoint(servers, n, servers[i].endpoint@));
        lemma_config_of_server(servers, n, i);
    }
    assert forall|i: int| 0 <= i < n && !(#[trigger] servers[i]).enabled implies {
        &&& !configs.contains_key(servers[i].endpoint@)
        &&& !states.contains_key(servers[i].endpoint@)
    } by {
        let e = servers[i].endpoint@;
        if enabled_endpoint(servers, n, e) {
            let j = choose|j: int|
                0 <= j < n && (#[trigger] servers[j]).enabled && servers[j].endpoint@ == e;
            assert(servers[j].endpoint@ == servers[i].endpoint@);
            if j < i {
                assert(servers[j].endpoint@ != servers[i].endpoint@);
            } else if i < j {
                assert(servers[i].endpoint@ != servers[j].endpoint@);
            }
        }
        assert(configs.contains_key(e) <==> enabled_endpoint(servers, n, e));
    }
    assert forall|k: Seq<char>|
        configs.contains_key(k) || #[trigger] states.contains_key(k) implies exists|i: int|
        0 <= i < n && (#[trigger] servers[i]).endpoint@ == k by {
        assert(configs.contains_key(k) <==> enabled_endpoint(servers, n, k));
        let j = choose|j: int|
            0 <= j < n && (#[trigger] servers[j]).enabled && servers[j].endpoint@ == k;
        assert(servers[j].endpoint@ == k);
    }
}

proof fn lemma_config_of_server(servers: Seq<Server>, n: int, i: int)
    requires
        0 <= i < n <= servers.len(),
        servers[i].enabled,
        forall|i: int, j: int|
            0 <= i < j < servers.len() ==> (#[trigger] servers[i]).endpoint@ != (
            #[trigger] servers[j]).endpoint@,
    ensures
        config_map(servers, n)[servers[i].endpoint@] == servers[i],
    decreases n,
{
    if i < n - 1 {
        lemma_config_of_server(servers, n - 1, i);
        assert(servers[i].endpoint@ != servers[n - 1].endpoint@);
    }
}

/// The live state of every enabled upstream, before anything is known of it.
pub fn build_state_db(servers: Vec<Server>) -> (db: ServerStateDb)
    ensures
        db@ == state_map(servers@),
{
    let mut db: ServerStateDb = StringMap::new();
    let mut i: usize = 0;
    while i < servers.len()
        invariant
            i <= servers.len(),
            forall|e: Seq<char>| #[trigger]
                db@.contains_key(e) <==> enabled_endpoint(servers@, i as int, e),
            forall|e: Seq<char>| #[trigger] db@.contains_key(e) ==> db@[e] == fresh_state(),
        decreases servers.len() - i,
    {
        let ghost before = db@;
        if servers[i].enabled {
            db.insert(servers[i].endpoint.clone(), ServerState::new());
        }
        proof {
            assert forall|e: Seq<char>| #[trigger]
                db@.contains_key(e) <==> enabled_endpoint(servers@, i + 1, e) by {
                if enabled_endpoint(servers@, i as int, e) {
                    let j = choose|j: int|
                        0 <= j < i && (#[trigger] servers@[j]).enabled && servers@[j].endpoint@
                            == e;
                    assert(servers@[j].enabled);
                }
                if enabled_endpoint(servers@, i + 1, e) {
                    let j = choose|j: int|
                        0 <= j < i + 1 && (#[trigger] servers@[j]).enabled && servers@[j].endpoint@
                            == e;
                    if j < i {
                        assert(servers@[j].enabled);
                        assert(enabled_endpoint(servers@, i as int, e));
                    }
                    assert(before.contains_key(e) <==> enabled_endpoint(servers@, i as int, e));
                }
                assert(before.contains_key(e) <==> enabled_endpoint(servers@, i as int, e));
                if servers@[i as int].enabled {
                    assert(enabled_endpoint(servers@, i + 1, servers@[i as int].endpoint@));
                }
            }
        }
        i += 1;
    }
    assert(db@ =~= state_map(servers@));
    db
}

/// The configuration of every enabled upstream.
pub fn build_config_db(servers: Vec<Server>) -> (db: ServerConfigDb)
    ensures
        db@ == config_map(servers@, servers@.len() as int),
{
    let mut db: ServerConfigDb = StringMap::new();
    let mut i: usize = 0;
    while i < servers.len()
        invariant
            i <= servers.len(),
            db@ == config_map(servers@, i as int),
        decreases servers.len() - i,
    {
        if servers[i].enabled {
            db.insert(servers[i].endpoint.clone(), servers[i].clone());
        }
        i += 1;
    }
    db
}

/// An address reads as its host, a colon, and its port in digits.
pub proof fn law_socket_address(host: Seq<char>, port: u16)
    ensures
        ({
            let address = socket_address(host, port);
            let digits = address.skip((host.len() + 1) as int);
            &&& address.len() > host.len() + 1
            &&& address.take(host.len() as int) == host
            &&& address[host.len() as int] == ':'
            &&& crate::text::digits_value(digits) == port
            &&& digits[0] == '0' ==> port == 0
        }),
{
    let address = socket_address(host, port);
    let digits = crate::text::decimal(port as nat);
    crate::text::law_decimal_reads_back(port as nat);
    reveal_strlit(":");
    assert(":"@.len() == 1 && ":"@[0] == ':');
    assert(address.skip((host.len() + 1) as int) =~= digits);
    assert(address.take(host.len() as int) =~= host);
}

/// What the operator reads of a fault in the endpoints names the server or the endpoint.
pub proof fn law_messages_name_servers(text: Seq<char>)
    ensures
        crate::text::occurs(fault_message(ConfigFault::EmptyEndpoint { name: text }), text),
        crate::text::occurs(fault_message(ConfigFault::DuplicateEndpoint { endpoint: text }), text),
{
    crate::text::law_occurs(fault_message(ConfigFault::EmptyEndpoint { name: text }), text);
    crate::text::law_occurs(
        fault_message(ConfigFault::DuplicateEndpoint { endpoint: text }),
        text,
    );
    assert(fault_message(ConfigFault::EmptyEndpoint { name: text }) =~= "server '"@ + text
        + "' has an empty endpoint"@);
    assert(fault_message(ConfigFault::DuplicateEndpoint { endpoint: text })
        =~= "duplicate upstream endpoint '"@ + text + "' \u{2014} endpoints must be unique"@);
}

/// What the operator reads of every other fault names the field, or what is missing.
pub proof fn law_messages_name_fields()
    ensures
        fault_message(ConfigFault::EmptyListenAddress) == "listen_address must not be empty"@,
        fault_message(ConfigFault::ZeroListenPort) == "listen_port must be non-zero"@,
        fault_message(ConfigFault::ZeroReconnectInterval)
            == "upstream_reconnect_ms must be greater than 0"@,
        fault_message(ConfigFault::ZeroMonitoringInterval)
            == "upstream_monitoring_ms must be greater than 0"@,
        fault_message(ConfigFault::ZeroStatusInterval)
            == "upstream_status_ms must be greater than 0"@,
        fault_message(ConfigFault::ZeroMaxConnections) == "max_connections must be greater than 0"@,
        fault_message(ConfigFault::ZeroMaxMessageBytes)
            == "max_message_bytes must be greater than 0"@,
        fault_message(ConfigFault::NoServers) == "config must define at least one server"@,
        fault_message(ConfigFault::NoEnabledServer)
            == "config must have at least one enabled server"@,
        fault_message(ConfigFault::ZeroMetricsPort) == "metrics_port must be non-zero when set"@,
{
}

} // verus!
