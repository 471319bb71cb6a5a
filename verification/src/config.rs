//! What can be configured, and what holds where nothing is.

use vstd::prelude::*;

use crate::name_map::NameMap;
use crate::text;

pub use crate::masked::MaskedString;
pub use crate::rate::parse_bandwidth_limit;

verus! {

/// Seconds between two heartbeats that the server sends.
pub const DEFAULT_HEARTBEAT_INTERVAL_SECS: u64 = 30;

/// Seconds after which the client misses a heartbeat.
pub const DEFAULT_HEARTBEAT_TIMEOUT_SECS: u64 = 40;

/// Seconds before the client tries again.
pub const DEFAULT_CLIENT_RETRY_INTERVAL_SECS: u64 = 1;

/// Whether TCP sends small packets at once.
pub const DEFAULT_NODELAY: bool = true;

/// Seconds of silence before TCP probes a connection.
pub const DEFAULT_KEEPALIVE_SECS: u64 = 20;

/// Seconds between two TCP probes.
pub const DEFAULT_KEEPALIVE_INTERVAL: u64 = 8;

/// How client and server talk to each other.
#[derive(Debug, Copy, Clone, PartialEq, Eq, Structural)]
pub enum TransportType {
    Tcp,
    Tls,
    Noise,
    Websocket,
    Kcp,
    Quic,
}

impl Default for TransportType {
    fn default() -> (r: Self)
        ensures
            r == TransportType::Tcp,
    {
        TransportType::Tcp
    }
}

/// What a service carries.
#[derive(Debug, Copy, Clone, PartialEq, Eq, Structural)]
pub enum ServiceType {
    Tcp,
    Udp,
    Http,
    Https,
    Tcpmux,
    Stcp,
    Sudp,
    Xtcp,
}

impl Default for ServiceType {
    fn default() -> (r: Self)
        ensures
            r == ServiceType::Tcp,
    {
        ServiceType::Tcp
    }
}

impl ServiceType {
    /// The name of the type in messages.
    pub open spec fn text(self) -> Seq<char> {
        match self {
            ServiceType::Tcp => "Tcp"@,
            ServiceType::Udp => "Udp"@,
            ServiceType::Http => "Http"@,
            ServiceType::Https => "Https"@,
            ServiceType::Tcpmux => "Tcpmux"@,
            ServiceType::Stcp => "Stcp"@,
            ServiceType::Sudp => "Sudp"@,
            ServiceType::Xtcp => "Xtcp"@,
        }
    }

    /// The name of the type in messages.
    pub fn name(self) -> (r: &'static str)
        ensures
            r@ == self.text(),
            self is Tcp ==> r@ == "Tcp"@,
            self is Udp ==> r@ == "Udp"@,
            self is Http ==> r@ == "Http"@,
            self is Https ==> r@ == "Https"@,
            self is Tcpmux ==> r@ == "Tcpmux"@,
            self is Stcp ==> r@ == "Stcp"@,
            self is Sudp ==> r@ == "Sudp"@,
            self is Xtcp ==> r@ == "Xtcp"@,
    {
        match self {
            ServiceType::Tcp => "Tcp",
            ServiceType::Udp => "Udp",
            ServiceType::Http => "Http",
            ServiceType::Https => "Https",
            ServiceType::Tcpmux => "Tcpmux",
            ServiceType::Stcp => "Stcp",
            ServiceType::Sudp => "Sudp",
            ServiceType::Xtcp => "Xtcp",
        }
    }

    /// Whether the service is found by its HTTP host.
    pub open spec fn is_web(self) -> bool {
        self == ServiceType::Http || self == ServiceType::Https
    }

    /// Whether the service is shared by a secret key.
    pub open spec fn is_secret(self) -> bool {
        self == ServiceType::Stcp || self == ServiceType::Sudp || self == ServiceType::Xtcp
    }
}

/// Services are found by a host, shared by a key or neither, by their types.
pub proof fn kinds_of_services(t: ServiceType)
    ensures
        t.is_web() == (match t {
            ServiceType::Http | ServiceType::Https => true,
            ServiceType::Tcp | ServiceType::Udp | ServiceType::Tcpmux => false,
            ServiceType::Stcp | ServiceType::Sudp | ServiceType::Xtcp => false,
        }),
        t.is_secret() == (match t {
            ServiceType::Stcp | ServiceType::Sudp | ServiceType::Xtcp => true,
            ServiceType::Tcp | ServiceType::Udp | ServiceType::Tcpmux => false,
            ServiceType::Http | ServiceType::Https => false,
        }),
{
}

/// A service is switched on unless it says otherwise.
pub proof fn services_are_on_unless_switched_off(s: ServerServiceConfig, c: ClientServiceConfig)
    ensures
        s.enabled is None || s.enabled == Some(true) <==> s.enabled(),
        c.enabled is None || c.enabled == Some(true) <==> c.enabled(),
{
    if let Some(on) = s.enabled {
        assert(s.enabled == Some(on));
        assert(on == true || on == false);
    }
    if let Some(on) = c.enabled {
        assert(c.enabled == Some(on));
        assert(on == true || on == false);
    }
}

/// The type of a service that names none.
pub fn default_service_type() -> (r: ServiceType)
    ensures
        r == ServiceType::Tcp,
{
    ServiceType::Tcp
}

// ---------- ports ----------

/// Ports from `start` to `end`, both of them in.
#[derive(Debug, Clone, PartialEq, Eq)]
pub struct PortRange {
    pub start: u16,
    pub end: u16,
}

impl PortRange {
    /// Whether the port lies in the range.
    pub fn contains(&self, port: u16) -> (r: bool)
        ensures
            r == (self.start <= port <= self.end),
    {
        port >= self.start && port <= self.end
    }
}

// ---------- health checks ----------

/// How the health of a service is checked.
#[derive(Debug, Clone, PartialEq, Eq)]
pub struct HealthCheckConfig {
    pub check_type: String,
    pub path: Option<String>,
    pub interval_seconds: u64,
    pub timeout_seconds: u64,
    pub max_failed: u32,
    pub http_headers: Option<Vec<HttpHeader>>,
}

/// The kind of check where none is named.
pub fn default_health_check_type() -> (r: String)
    ensures
        r@ == "tcp"@,
{
    "tcp".to_string()
}

/// Seconds between two checks.
pub fn default_health_check_interval() -> (r: u64)
    ensures
        r == 10,
{
    10
}

/// Seconds that a check may take.
pub fn default_health_check_timeout() -> (r: u64)
    ensures
        r == 3,
{
    3
}

/// Failures in a row after which a service counts as down.
pub fn default_health_check_max_failed() -> (r: u32)
    ensures
        r == 3,
{
    3
}

/// A header that a health check sends.
#[derive(Debug, Clone, PartialEq, Eq)]
pub struct HttpHeader {
    pub name: String,
    pub value: String,
}

// ---------- load balancing ----------

/// The group of services that share the load.
#[derive(Clone, PartialEq, Eq)]
pub struct LoadBalancerConfig {
    pub group: String,
    pub group_key: Option<MaskedString>,
}

// ---------- dashboard ----------

/// Where the dashboard listens and who may see it.
#[derive(Clone, PartialEq, Eq)]
pub struct WebServerConfig {
    pub addr: String,
    pub port: u16,
    pub user: Option<String>,
    pub password: Option<MaskedString>,
    pub tls_cert_file: Option<String>,
    pub tls_key_file: Option<String>,
}

/// The address of a dashboard that names none.
pub fn default_web_addr() -> (r: String)
    ensures
        r@ == "127.0.0.1"@,
{
    "127.0.0.1".to_string()
}

// ---------- logging ----------

/// Where the log goes and how much of it.
#[derive(Debug, Clone, PartialEq, Eq)]
pub struct LogConfig {
    pub to: Option<String>,
    pub level: Option<String>,
    pub max_days: Option<u64>,
    pub disable_print_color: bool,
}

// ---------- KCP ----------

/// Parameters of the KCP transport.
#[derive(Debug, Clone, PartialEq, Eq)]
pub struct KcpConfig {
    pub mode: String,
    pub mtu: u32,
    pub sndwnd: u32,
    pub rcvwnd: u32,
}

/// The mode of KCP.
pub fn default_kcp_mode() -> (r: String)
    ensures
        r@ == "fast"@,
{
    "fast".to_string()
}

/// The largest KCP packet.
pub fn default_kcp_mtu() -> (r: u32)
    ensures
        r == 1350,
{
    1350
}

/// The send window of KCP.
pub fn default_kcp_sndwnd() -> (r: u32)
    ensures
        r == 1024,
{
    1024
}

/// The receive window of KCP.
pub fn default_kcp_rcvwnd() -> (r: u32)
    ensures
        r == 1024,
{
    1024
}

impl Default for KcpConfig {
    fn default() -> (r: Self)
        ensures
            r.mode@ == "fast"@,
            r.mtu == 1350,
            r.sndwnd == 1024,
            r.rcvwnd == 1024,
    {
        KcpConfig {
            mode: default_kcp_mode(),
            mtu: default_kcp_mtu(),
            sndwnd: default_kcp_sndwnd(),
            rcvwnd: default_kcp_rcvwnd(),
        }
    }
}

// ---------- QUIC ----------

/// Parameters of the QUIC transport.
#[derive(Debug, Clone, PartialEq, Eq)]
pub struct QuicConfig {
    pub keepalive_period: u64,
    pub max_idle_timeout: u64,
    pub max_incoming_streams: u32,
}

/// Seconds between two QUIC probes.
pub fn default_quic_keepalive() -> (r: u64)
    ensures
        r == 10,
{
    10
}

/// Seconds of silence after which QUIC gives up.
pub fn default_quic_max_idle_timeout() -> (r: u64)
    ensures
        r == 30,
{
    30
}

/// Streams that the other side may open.
pub fn default_quic_max_streams() -> (r: u32)
    ensures
        r == 100,
{
    100
}

impl Default for QuicConfig {
    fn default() -> (r: Self)
        ensures
            r == (QuicConfig {
                keepalive_period: 10,
                max_idle_timeout: 30,
                max_incoming_streams: 100,
            }),
    {
        QuicConfig {
            keepalive_period: default_quic_keepalive(),
            max_idle_timeout: default_quic_max_idle_timeout(),
            max_incoming_streams: default_quic_max_streams(),
        }
    }
}

// ---------- client plugins ----------

/// The plugin that handles a service in place of a local address.
#[derive(Clone, PartialEq, Eq)]
pub struct ClientPluginConfig {
    pub plugin_type: String,
    pub local_addr: Option<String>,
    pub host_header_rewrite: Option<String>,
    pub http_user: Option<String>,
    pub http_password: Option<MaskedString>,
    pub local_path: Option<String>,
    pub strip_prefix: Option<String>,
    pub enable_http2: bool,
    pub unix_path: Option<String>,
    pub crt_path: Option<String>,
    pub key_path: Option<String>,
}

// ---------- authentication ----------

/// How the client gets its OIDC token.
#[derive(Clone, PartialEq, Eq)]
pub struct OidcClientConfig {
    pub client_id: String,
    pub client_secret: MaskedString,
    pub audience: Option<String>,
    pub scope: Option<String>,
    pub token_endpoint_url: String,
}

/// How the server checks OIDC tokens.
#[derive(Debug, Clone, PartialEq, Eq)]
pub struct OidcServerConfig {
    pub issuer: String,
    pub audience: String,
    pub skip_expiry_check: bool,
    pub skip_issuer_check: bool,
}

/// How client and server know each other.
#[derive(Clone, PartialEq, Eq)]
pub struct AuthConfig {
    pub method: String,
    pub token: Option<MaskedString>,
    pub token_file: Option<String>,
    pub oidc: Option<OidcClientConfig>,
    pub oidc_server: Option<OidcServerConfig>,
}

/// The method where none is named.
pub fn default_auth_method() -> (r: String)
    ensures
        r@ == "token"@,
{
    "token".to_string()
}

// ---------- SSH gateway and server plugins ----------

/// The SSH tunnel gateway.
#[derive(Debug, Clone, PartialEq, Eq)]
pub struct SshTunnelGatewayConfig {
    pub bind_port: u16,
    pub private_key_file: Option<String>,
    pub auto_gen_private_key_path: Option<String>,
    pub authorized_keys_file: Option<String>,
}

/// A plugin that the server asks over HTTP.
#[derive(Debug, Clone, PartialEq, Eq)]
pub struct ServerPluginConfig {
    pub name: String,
    pub addr: String,
    pub path: String,
    pub ops: Vec<String>,
    pub tls_verify: bool,
}

// ---------- services ----------

/// A service as the client has it. What is optional here has a value once the
/// configuration is valid.
#[derive(Clone)]
pub struct ClientServiceConfig {
    pub service_type: ServiceType,
    pub name: String,
    pub local_addr: String,
    pub prefer_ipv6: bool,
    pub token: Option<MaskedString>,
    pub nodelay: Option<bool>,
    pub retry_interval: Option<u64>,
    pub enabled: Option<bool>,
    pub pool_count: Option<usize>,
    pub bandwidth_limit: Option<String>,
    pub proxy_protocol_version: Option<String>,
    pub use_encryption: bool,
    pub use_compression: bool,
    pub metadatas: Option<NameMap<String>>,
    pub custom_domains: Option<Vec<String>>,
    pub subdomain: Option<String>,
    pub locations: Option<Vec<String>>,
    pub host_header_rewrite: Option<String>,
    pub http_user: Option<String>,
    pub http_password: Option<MaskedString>,
    pub request_headers: Option<NameMap<String>>,
    pub response_headers: Option<NameMap<String>>,
    pub route_by_http_user: Option<String>,
    pub secret_key: Option<MaskedString>,
    pub server_user: Option<String>,
    pub server_name: Option<String>,
    pub bind_addr: Option<String>,
    pub bind_port: Option<i32>,
    pub allow_users: Option<Vec<String>>,
    pub keep_tunnel_open: bool,
    pub max_retries_an_hour: Option<u32>,
    pub min_retry_interval: Option<u64>,
    pub fallback_to: Option<String>,
    pub fallback_timeout_ms: Option<u64>,
    pub health_check: Option<HealthCheckConfig>,
    pub load_balancer: Option<LoadBalancerConfig>,
    pub plugin: Option<ClientPluginConfig>,
}

impl ClientServiceConfig {
    /// Whether nothing but the name is set.
    pub open spec fn only_named(&self, name: Seq<char>) -> bool {
        &&& self.name@ == name
        &&& self.local_addr@ == Seq::<char>::empty()
        &&& *self == (ClientServiceConfig {
            service_type: ServiceType::Tcp,
            name: self.name,
            local_addr: self.local_addr,
            prefer_ipv6: false,
            token: None,
            nodelay: None,
            retry_interval: None,
            enabled: None,
            pool_count: None,
            bandwidth_limit: None,
            proxy_protocol_version: None,
            use_encryption: false,
            use_compression: false,
            metadatas: None,
            custom_domains: None,
            subdomain: None,
            locations: None,
            host_header_rewrite: None,
            http_user: None,
            http_password: None,
            request_headers: None,
            response_headers: None,
            route_by_http_user: None,
            secret_key: None,
            server_user: None,
            server_name: None,
            bind_addr: None,
            bind_port: None,
            allow_users: None,
            keep_tunnel_open: false,
            max_retries_an_hour: None,
            min_retry_interval: None,
            fallback_to: None,
            fallback_timeout_ms: None,
            health_check: None,
            load_balancer: None,
            plugin: None,
        })
    }

    /// A service of which only the name is set.
    pub fn with_name(name: &str) -> (r: ClientServiceConfig)
        ensures
            r.only_named(name@),
    {
        ClientServiceConfig {
            service_type: ServiceType::Tcp,
            name: name.to_string(),
            local_addr: String::new(),
            prefer_ipv6: false,
            token: None,
            nodelay: None,
            retry_interval: None,
            enabled: None,
            pool_count: None,
            bandwidth_limit: None,
            proxy_protocol_version: None,
            use_encryption: false,
            use_compression: false,
            metadatas: None,
            custom_domains: None,
            subdomain: None,
            locations: None,
            host_header_rewrite: None,
            http_user: None,
            http_password: None,
            request_headers: None,
            response_headers: None,
            route_by_http_user: None,
            secret_key: None,
            server_user: None,
            server_name: None,
            bind_addr: None,
            bind_port: None,
            allow_users: None,
            keep_tunnel_open: false,
            max_retries_an_hour: None,
            min_retry_interval: None,
            fallback_to: None,
            fallback_timeout_ms: None,
            health_check: None,
            load_balancer: None,
            plugin: None,
        }
    }

    /// Whether the service is switched on: it is unless it says otherwise.
    pub open spec fn enabled(&self) -> bool {
        self.enabled != Some(false)
    }

    /// Decides [`enabled`](Self::enabled).
    pub fn is_enabled(&self) -> (r: bool)
        ensures
            r == self.enabled(),
            r == (self.enabled is None || self.enabled == Some(true)),
    {
        match self.enabled {
            Some(e) => e,
            None => true,
        }
    }

    /// Whether the service visits a secret service of another client.
    pub open spec fn visits(&self) -> bool {
        self.service_type.is_secret() && self.server_name is Some
    }

    /// Decides [`visits`](Self::visits).
    pub fn is_visitor(&self) -> (r: bool)
        ensures
            r == self.visits(),
            r == ((self.service_type == ServiceType::Stcp || self.service_type == ServiceType::Sudp
                || self.service_type == ServiceType::Xtcp) && self.server_name is Some),
    {
        (match self.service_type {
            ServiceType::Stcp | ServiceType::Sudp | ServiceType::Xtcp => true,
            _ => false,
        }) && self.server_name.is_some()
    }
}

impl Default for ClientServiceConfig {
    fn default() -> (r: Self)
        ensures
            r.only_named(Seq::empty()),
    {
        let r = ClientServiceConfig::with_name("");
        proof {
            reveal_strlit("");
            assert(""@ == Seq::<char>::empty());
        }
        r
    }
}

/// A service as the server has it. What is optional here has a value once the configuration
/// is valid.
#[derive(Clone)]
pub struct ServerServiceConfig {
    pub service_type: ServiceType,
    pub name: String,
    pub bind_addr: String,
    pub token: Option<MaskedString>,
    pub nodelay: Option<bool>,
    pub enabled: Option<bool>,
    pub pool_count: Option<usize>,
    pub bandwidth_limit: Option<String>,
    pub proxy_protocol_version: Option<String>,
    pub metadatas: Option<NameMap<String>>,
    pub custom_domains: Option<Vec<String>>,
    pub subdomain: Option<String>,
    pub locations: Option<Vec<String>>,
    pub host_header_rewrite: Option<String>,
    pub http_user: Option<String>,
    pub http_password: Option<MaskedString>,
    pub request_headers: Option<NameMap<String>>,
    pub response_headers: Option<NameMap<String>>,
    pub route_by_http_user: Option<String>,
    pub secret_key: Option<MaskedString>,
    pub allow_users: Option<Vec<String>>,
    pub health_check: Option<HealthCheckConfig>,
    pub load_balancer: Option<LoadBalancerConfig>,
}

impl ServerServiceConfig {
    /// Whether nothing but the name is set.
    pub open spec fn only_named(&self, name: Seq<char>) -> bool {
        &&& self.name@ == name
        &&& self.bind_addr@ == Seq::<char>::empty()
        &&& *self == (ServerServiceConfig {
            service_type: ServiceType::Tcp,
            name: self.name,
            bind_addr: self.bind_addr,
            token: None,
            nodelay: None,
            enabled: None,
            pool_count: None,
            bandwidth_limit: None,
            proxy_protocol_version: None,
            metadatas: None,
            custom_domains: None,
            subdomain: None,
            locations: None,
            host_header_rewrite: None,
            http_user: None,
            http_password: None,
            request_headers: None,
            response_headers: None,
            route_by_http_user: None,
            secret_key: None,
            allow_users: None,
            health_check: None,
            load_balancer: None,
        })
    }

    /// A service of which only the name is set.
    pub fn with_name(name: &str) -> (r: ServerServiceConfig)
        ensures
            r.only_named(name@),
    {
        ServerServiceConfig {
            service_type: ServiceType::Tcp,
            name: name.to_string(),
            bind_addr: String::new(),
            token: None,
            nodelay: None,
            enabled: None,
            pool_count: None,
            bandwidth_limit: None,
            proxy_protocol_version: None,
            metadatas: None,
            custom_domains: None,
            subdomain: None,
            locations: None,
            host_header_rewrite: None,
            http_user: None,
            http_password: None,
            request_headers: None,
            response_headers: None,
            route_by_http_user: None,
            secret_key: None,
            allow_users: None,
            health_check: None,
            load_balancer: None,
        }
    }

    /// Whether the service is switched on: it is unless it says otherwise.
    pub open spec fn enabled(&self) -> bool {
        self.enabled != Some(false)
    }

    /// Decides [`enabled`](Self::enabled).
    pub fn is_enabled(&self) -> (r: bool)
        ensures
            r == self.enabled(),
            r == (self.enabled is None || self.enabled == Some(true)),
    {
        match self.enabled {
            Some(e) => e,
            None => true,
        }
    }

    /// How many connections to the client are held ready for visitors.
    pub open spec fn pool(&self) -> usize {
        match self.pool_count {
            Some(n) => n,
            None => match self.service_type {
                ServiceType::Udp | ServiceType::Sudp => 2,
                ServiceType::Xtcp => 1,
                _ => 8,
            },
        }
    }

    /// Computes [`pool`](Self::pool).
    pub fn pool_size(&self) -> (r: usize)
        ensures
            r == self.pool(),
            self.pool_count matches Some(n) ==> r == n,
            self.pool_count is None ==> r == (match self.service_type {
                ServiceType::Tcp => 8usize,
                ServiceType::Udp => 2,
                ServiceType::Http => 8,
                ServiceType::Https => 8,
                ServiceType::Tcpmux => 8,
                ServiceType::Stcp => 8,
                ServiceType::Sudp => 2,
                ServiceType::Xtcp => 1,
            }),
    {
        match self.pool_count {
            Some(n) => n,
            None => match self.service_type {
                ServiceType::Tcp
                | ServiceType::Http
                | ServiceType::Https
                | ServiceType::Tcpmux
                | ServiceType::Stcp => 8,
                ServiceType::Udp | ServiceType::Sudp => 2,
                ServiceType::Xtcp => 1,
            },
        }
    }

    /// Whether the service has an address of its own on the server.
    pub open spec fn binds(&self) -> bool {
        self.service_type == ServiceType::Tcp || self.service_type == ServiceType::Udp
    }

    /// Decides [`binds`](Self::binds).
    pub fn needs_bind_addr(&self) -> (r: bool)
        ensures
            r == self.binds(),
            r == (self.service_type == ServiceType::Tcp || self.service_type == ServiceType::Udp),
    {
        match self.service_type {
            ServiceType::Tcp | ServiceType::Udp => true,
            _ => false,
        }
    }
}

impl Default for ServerServiceConfig {
    fn default() -> (r: Self)
        ensures
            r.only_named(Seq::empty()),
    {
        let r = ServerServiceConfig::with_name("");
        proof {
            reveal_strlit("");
            assert(""@ == Seq::<char>::empty());
        }
        r
    }
}

/// A service of a client with nothing but a name is of TCP, and says nothing else.
pub proof fn named_client_services_say_nothing_else(s: ClientServiceConfig, name: Seq<char>)
    requires
        s.only_named(name),
    ensures
        s.name@ == name,
        s.local_addr@.len() == 0,
        s.service_type == ServiceType::Tcp,
        !s.prefer_ipv6,
        s.token is None,
        s.nodelay is None,
        s.retry_interval is None,
        s.enabled is None,
        s.pool_count is None,
        s.bandwidth_limit is None,
        s.proxy_protocol_version is None,
        !s.use_encryption,
        !s.use_compression,
        s.metadatas is None,
        s.custom_domains is None,
        s.subdomain is None,
        s.locations is None,
        s.host_header_rewrite is None,
        s.http_user is None,
        s.http_password is None,
        s.request_headers is None,
        s.response_headers is None,
        s.route_by_http_user is None,
        s.secret_key is None,
        s.server_user is None,
        s.server_name is None,
        s.bind_addr is None,
        s.bind_port is None,
        s.allow_users is None,
        !s.keep_tunnel_open,
        s.max_retries_an_hour is None,
        s.min_retry_interval is None,
        s.fallback_to is None,
        s.fallback_timeout_ms is None,
        s.health_check is None,
        s.load_balancer is None,
        s.plugin is None,
{
}

/// A service of a server with nothing but a name is of TCP, and says nothing else.
pub proof fn named_server_services_say_nothing_else(s: ServerServiceConfig, name: Seq<char>)
    requires
        s.only_named(name),
    ensures
        s.name@ == name,
        s.bind_addr@.len() == 0,
        s.service_type == ServiceType::Tcp,
        s.token is None,
        s.nodelay is None,
        s.enabled is None,
        s.pool_count is None,
        s.bandwidth_limit is None,
        s.proxy_protocol_version is None,
        s.metadatas is None,
        s.custom_domains is None,
        s.subdomain is None,
        s.locations is None,
        s.host_header_rewrite is None,
        s.http_user is None,
        s.http_password is None,
        s.request_headers is None,
        s.response_headers is None,
        s.route_by_http_user is None,
        s.secret_key is None,
        s.allow_users is None,
        s.health_check is None,
        s.load_balancer is None,
{
}

// ---------- transports ----------

/// The TLS transport.
#[derive(Clone, PartialEq, Eq)]
pub struct TlsConfig {
    pub hostname: Option<String>,
    pub trusted_root: Option<String>,
    pub pkcs12: Option<String>,
    pub pkcs12_password: Option<MaskedString>,
    pub cert_file: Option<String>,
    pub key_file: Option<String>,
    pub force: bool,
}

/// The Noise protocol where none is named.
pub fn default_noise_pattern() -> (r: String)
    ensures
        r@ == "Noise_NK_25519_ChaChaPoly_BLAKE2s"@,
{
    "Noise_NK_25519_ChaChaPoly_BLAKE2s".to_string()
}

/// The Noise transport.
#[derive(Clone, PartialEq, Eq)]
pub struct NoiseConfig {
    pub pattern: String,
    pub local_private_key: Option<MaskedString>,
    pub remote_public_key: Option<String>,
}

/// The Websocket transport.
#[derive(Debug, Clone, PartialEq, Eq)]
pub struct WebsocketConfig {
    pub tls: bool,
}

/// Whether TCP sends small packets at once, where nothing is said.
pub fn default_nodelay() -> (r: bool)
    ensures
        r == DEFAULT_NODELAY,
        r == true,
{
    DEFAULT_NODELAY
}

/// Seconds of silence before TCP probes, where nothing is said.
pub fn default_keepalive_secs() -> (r: u64)
    ensures
        r == DEFAULT_KEEPALIVE_SECS,
        r == 20,
{
    DEFAULT_KEEPALIVE_SECS
}

/// Seconds between two TCP probes, where nothing is said.
pub fn default_keepalive_interval() -> (r: u64)
    ensures
        r == DEFAULT_KEEPALIVE_INTERVAL,
        r == 8,
{
    DEFAULT_KEEPALIVE_INTERVAL
}

/// The TCP connection below a transport. The proxy is a URL.
#[derive(Debug, Clone, PartialEq, Eq)]
pub struct TcpConfig {
    pub nodelay: bool,
    pub keepalive_secs: u64,
    pub keepalive_interval: u64,
    pub proxy: Option<String>,
}

impl TcpConfig {
    /// What holds where nothing is configured.
    pub open spec fn standard() -> TcpConfig {
        TcpConfig {
            nodelay: DEFAULT_NODELAY,
            keepalive_secs: DEFAULT_KEEPALIVE_SECS,
            keepalive_interval: DEFAULT_KEEPALIVE_INTERVAL,
            proxy: None,
        }
    }
}

impl Default for TcpConfig {
    fn default() -> (r: Self)
        ensures
            r == TcpConfig::standard(),
            r.nodelay,
            r.keepalive_secs == 20,
            r.keepalive_interval == 8,
            r.proxy is None,
    {
        TcpConfig {
            nodelay: default_nodelay(),
            keepalive_secs: default_keepalive_secs(),
            keepalive_interval: default_keepalive_interval(),
            proxy: None,
        }
    }
}

/// The transport between client and server.
#[derive(Clone, PartialEq, Eq)]
pub struct TransportConfig {
    pub transport_type: TransportType,
    pub tcp: TcpConfig,
    pub tls: Option<TlsConfig>,
    pub noise: Option<NoiseConfig>,
    pub websocket: Option<WebsocketConfig>,
    pub kcp: Option<KcpConfig>,
    pub quic: Option<QuicConfig>,
    pub tcp_mux: bool,
    pub tcp_mux_keepalive_interval: u64,
    pub pool_count: Option<usize>,
    pub heartbeat_interval: Option<i64>,
    pub heartbeat_timeout: Option<i64>,
}

impl TransportConfig {
    /// What holds where there is no transport section.
    pub open spec fn standard() -> TransportConfig {
        TransportConfig {
            transport_type: TransportType::Tcp,
            tcp: TcpConfig::standard(),
            tls: None,
            noise: None,
            websocket: None,
            kcp: None,
            quic: None,
            tcp_mux: false,
            tcp_mux_keepalive_interval: 0,
            pool_count: None,
            heartbeat_interval: None,
            heartbeat_timeout: None,
        }
    }
}

impl Default for TransportConfig {
    fn default() -> (r: Self)
        ensures
            r == TransportConfig::standard(),
            r.transport_type == TransportType::Tcp,
            r.tcp == TcpConfig::standard(),
            r.tls is None,
            r.noise is None,
            r.websocket is None,
            r.kcp is None,
            r.quic is None,
            !r.tcp_mux,
            r.tcp_mux_keepalive_interval == 0,
            r.pool_count is None,
            r.heartbeat_interval is None,
            r.heartbeat_timeout is None,
    {
        TransportConfig {
            transport_type: TransportType::Tcp,
            tcp: TcpConfig::default(),
            tls: None,
            noise: None,
            websocket: None,
            kcp: None,
            quic: None,
            tcp_mux: false,
            tcp_mux_keepalive_interval: 0,
            pool_count: None,
            heartbeat_interval: None,
            heartbeat_timeout: None,
        }
    }
}

/// Whether streams share one TCP connection, in a transport section that does not say.
pub fn default_tcp_mux() -> (r: bool)
    ensures
        r == true,
{
    true
}

/// Seconds between two probes of a shared connection.
pub fn default_tcp_mux_keepalive() -> (r: u64)
    ensures
        r == 30,
{
    30
}

/// Seconds after which the client misses a heartbeat, where nothing is said.
pub fn default_heartbeat_timeout() -> (r: u64)
    ensures
        r == DEFAULT_HEARTBEAT_TIMEOUT_SECS,
        r == 40,
{
    DEFAULT_HEARTBEAT_TIMEOUT_SECS
}

/// Seconds before the client tries again, where nothing is said.
pub fn default_client_retry_interval() -> (r: u64)
    ensures
        r == DEFAULT_CLIENT_RETRY_INTERVAL_SECS,
        r == 1,
{
    DEFAULT_CLIENT_RETRY_INTERVAL_SECS
}

/// Seconds between two heartbeats, where nothing is said.
pub fn default_heartbeat_interval() -> (r: u64)
    ensures
        r == DEFAULT_HEARTBEAT_INTERVAL_SECS,
        r == 30,
{
    DEFAULT_HEARTBEAT_INTERVAL_SECS
}

/// Whether the client is told what went wrong, where nothing is said.
pub fn default_detailed_errors() -> (r: bool)
    ensures
        r == true,
{
    true
}

// ---------- the two sides ----------

/// The client.
#[derive(Clone)]
pub struct ClientConfig {
    pub remote_addr: String,
    pub default_token: Option<MaskedString>,
    pub prefer_ipv6: Option<bool>,
    pub services: NameMap<ClientServiceConfig>,
    pub transport: TransportConfig,
    pub heartbeat_timeout: u64,
    pub retry_interval: u64,
    pub user: Option<String>,
    pub dns_server: Option<String>,
    pub log: Option<LogConfig>,
    pub web_server: Option<WebServerConfig>,
    pub start: Option<Vec<String>>,
    pub includes: Option<Vec<String>>,
    pub auth: Option<AuthConfig>,
}

impl Default for ClientConfig {
    fn default() -> (r: Self)
        ensures
            r.remote_addr@ == Seq::<char>::empty(),
            r.services.entries() == Seq::<(String, ClientServiceConfig)>::empty(),
            r == (ClientConfig {
                remote_addr: r.remote_addr,
                default_token: None,
                prefer_ipv6: None,
                services: r.services,
                transport: TransportConfig::standard(),
                heartbeat_timeout: 0,
                retry_interval: 0,
                user: None,
                dns_server: None,
                log: None,
                web_server: None,
                start: None,
                includes: None,
                auth: None,
            }),
    {
        ClientConfig {
            remote_addr: String::new(),
            default_token: None,
            prefer_ipv6: None,
            services: NameMap::new(),
            transport: TransportConfig::default(),
            heartbeat_timeout: 0,
            retry_interval: 0,
            user: None,
            dns_server: None,
            log: None,
            web_server: None,
            start: None,
            includes: None,
            auth: None,
        }
    }
}

/// The server.
#[derive(Clone)]
pub struct ServerConfig {
    pub bind_addr: String,
    pub default_token: Option<MaskedString>,
    pub services: NameMap<ServerServiceConfig>,
    pub transport: TransportConfig,
    pub heartbeat_interval: u64,
    pub allow_ports: Option<Vec<PortRange>>,
    pub max_ports_per_client: Option<u32>,
    pub detailed_errors_to_client: bool,
    pub dns_server: Option<String>,
    pub log: Option<LogConfig>,
    pub vhost_http_port: Option<u16>,
    pub vhost_https_port: Option<u16>,
    pub subdomain_host: Option<String>,
    pub custom_404_page: Option<String>,
    pub tcpmux_http_connect_port: Option<u16>,
    pub nat_hole_stun_server: Option<String>,
    pub web_server: Option<WebServerConfig>,
    pub enable_prometheus: bool,
    pub http_plugins: Option<Vec<ServerPluginConfig>>,
    pub auth: Option<AuthConfig>,
    pub ssh_tunnel_gateway: Option<SshTunnelGatewayConfig>,
}

impl Default for ServerConfig {
    fn default() -> (r: Self)
        ensures
            r.bind_addr@ == Seq::<char>::empty(),
            r.services.entries() == Seq::<(String, ServerServiceConfig)>::empty(),
            r == (ServerConfig {
                bind_addr: r.bind_addr,
                default_token: None,
                services: r.services,
                transport: TransportConfig::standard(),
                heartbeat_interval: 0,
                allow_ports: None,
                max_ports_per_client: None,
                detailed_errors_to_client: false,
                dns_server: None,
                log: None,
                vhost_http_port: None,
                vhost_https_port: None,
                subdomain_host: None,
                custom_404_page: None,
                tcpmux_http_connect_port: None,
                nat_hole_stun_server: None,
                web_server: None,
                enable_prometheus: false,
                http_plugins: None,
                auth: None,
                ssh_tunnel_gateway: None,
            }),
    {
        ServerConfig {
            bind_addr: String::new(),
            default_token: None,
            services: NameMap::new(),
            transport: TransportConfig::default(),
            heartbeat_interval: 0,
            allow_ports: None,
            max_ports_per_client: None,
            detailed_errors_to_client: false,
            dns_server: None,
            log: None,
            vhost_http_port: None,
            vhost_https_port: None,
            subdomain_host: None,
            custom_404_page: None,
            tcpmux_http_connect_port: None,
            nat_hole_stun_server: None,
            web_server: None,
            enable_prometheus: false,
            http_plugins: None,
            auth: None,
            ssh_tunnel_gateway: None,
        }
    }
}

/// The whole configuration.
#[derive(Clone)]
pub struct Config {
    pub server: Option<ServerConfig>,
    pub client: Option<ClientConfig>,
}

/// How a configuration file is written.
#[derive(Debug, Copy, Clone, PartialEq, Eq, Structural)]
pub enum ConfigFormat {
    Toml,
    Yaml,
    Json,
}

/// The format that goes with the extension of a file: TOML unless it says otherwise.
pub open spec fn format_of(extension: Option<Seq<char>>) -> ConfigFormat {
    if extension == Some("yaml"@) || extension == Some("yml"@) {
        ConfigFormat::Yaml
    } else if extension == Some("json"@) {
        ConfigFormat::Json
    } else {
        ConfigFormat::Toml
    }
}

/// Computes [`format_of`].
pub fn config_format(extension: Option<&str>) -> (r: ConfigFormat)
    ensures
        r == format_of(
            match extension {
                Some(e) => Some(e@),
                None => None,
            },
        ),
        r == ConfigFormat::Yaml <==> (extension matches Some(e) && (e@ == "yaml"@ || e@
            == "yml"@)),
        r == ConfigFormat::Json <==> (extension matches Some(e) && e@ == "json"@),
{
    proof {
        reveal_strlit("yaml");
        reveal_strlit("yml");
        reveal_strlit("json");
        assert("yaml"@[0] == 'y' && "yml"@[0] == 'y' && "json"@[0] == 'j');
    }
    match extension {
        Some(e) => {
            if text::str_eq(e, "yaml") || text::str_eq(e, "yml") {
                ConfigFormat::Yaml
            } else if text::str_eq(e, "json") {
                ConfigFormat::Json
            } else {
                ConfigFormat::Toml
            }
        },
        None => ConfigFormat::Toml,
    }
}

/// Which side a program runs as.
#[derive(Debug, Copy, Clone, PartialEq, Eq, Structural)]
pub enum RunMode {
    Server,
    Client,
    /// Neither the arguments nor the configuration say.
    Undetermined,
}

/// The side that a program runs as: the one that it is told, else the one that is configured,
/// where it is only one.
pub open spec fn mode_of(config: Config, as_server: bool, as_client: bool) -> RunMode {
    if as_server {
        RunMode::Server
    } else if as_client {
        RunMode::Client
    } else if config.server is Some && config.client is None {
        RunMode::Server
    } else if config.client is Some && config.server is None {
        RunMode::Client
    } else {
        RunMode::Undetermined
    }
}

/// Computes [`mode_of`].
pub fn run_mode(config: &Config, as_server: bool, as_client: bool) -> (r: RunMode)
    ensures
        r == mode_of(*config, as_server, as_client),
        as_server ==> r == RunMode::Server,
        as_client && !as_server ==> r == RunMode::Client,
        !as_server && !as_client ==> (r == RunMode::Server <==> config.server is Some
            && config.client is None),
        !as_server && !as_client ==> (r == RunMode::Client <==> config.client is Some
            && config.server is None),
{
    if as_server {
        RunMode::Server
    } else if as_client {
        RunMode::Client
    } else if config.server.is_some() && config.client.is_none() {
        RunMode::Server
    } else if config.client.is_some() && config.server.is_none() {
        RunMode::Client
    } else {
        RunMode::Undetermined
    }
}

/// A change of the services of a server while it runs.
#[derive(Clone)]
pub enum ServerServiceChange {
    /// A service is new or has changed.
    Add(ServerServiceConfig),
    /// The service of this name is gone.
    Delete(String),
}

/// A change of the services of a client while it runs.
#[derive(Clone)]
pub enum ClientServiceChange {
    /// A service is new or has changed.
    Add(ClientServiceConfig),
    /// The service of this name is gone.
    Delete(String),
}

/// A change of the configuration while a program runs.
#[derive(Clone)]
pub enum ConfigChange {
    Server(ServerServiceChange),
    Client(ClientServiceChange),
}

} // verus!
