//! Checking a configuration and filling in what it leaves to its defaults.

use vstd::prelude::*;

use crate::config::{
    AuthConfig, ClientConfig, ClientServiceConfig, Config, HealthCheckConfig, MaskedString,
    PortRange, ServerConfig, ServerServiceConfig, ServiceType, TlsConfig, TransportConfig,
    TransportType,
};
use crate::rate;
use crate::rate::{RateError, RateErrorView};
use crate::text;

verus! {

// ---------- errors ----------

/// What is wrong with a service.
#[derive(Debug)]
pub enum ServiceProblem {
    /// Neither the service nor the side it is on has a token.
    NoToken,
    /// A TCP or UDP service without an address on the server.
    NoBindAddr,
    /// An HTTP service that no host leads to.
    NoDomain(ServiceType),
    /// A secret service without a key.
    NoSecretKey(ServiceType),
    /// The port of the service is none of those that are allowed.
    PortNotAllowed(u16),
    /// A health check of an unknown kind.
    HealthCheckType(String),
    /// An HTTP health check without a path.
    NoHealthCheckPath,
    /// A bandwidth limit that cannot be read.
    BandwidthLimit(String),
    /// An unknown version of the proxy protocol.
    ProxyProtocolVersion(String),
    /// A service of the client that leads nowhere.
    NoLocalAddr,
}

impl ServiceProblem {
    /// The message for the user.
    pub open spec fn text(self, name: Seq<char>) -> Seq<char> {
        match self {
            ServiceProblem::NoToken => "The token of service "@ + name + " is not set"@,
            ServiceProblem::NoBindAddr => "Service "@ + name + " requires `bind_addr`"@,
            ServiceProblem::NoDomain(t) => "Service "@ + name + " of type "@ + t.text()
                + " requires `custom_domains` or `subdomain`"@,
            ServiceProblem::NoSecretKey(t) => "Service "@ + name + " of type "@ + t.text()
                + " requires `secret_key`"@,
            ServiceProblem::PortNotAllowed(p) => "Service "@ + name + " uses port "@
                + text::decimal(p as nat) + " which is not in allow_ports"@,
            ServiceProblem::HealthCheckType(t) => "Service "@ + name
                + " health_check.type must be 'tcp' or 'http', got '"@ + t@ + "'"@,
            ServiceProblem::NoHealthCheckPath => "Service "@ + name
                + " HTTP health_check requires `path`"@,
            ServiceProblem::BandwidthLimit(l) => "Service "@ + name
                + " has invalid bandwidth_limit '"@ + l@ + "'"@,
            ServiceProblem::ProxyProtocolVersion(v) => "Service "@ + name
                + " proxy_protocol_version must be 'v1' or 'v2', got '"@ + v@ + "'"@,
            ServiceProblem::NoLocalAddr => "Service "@ + name
                + " requires `local_addr` or `plugin`"@,
        }
    }

    /// Renders the problem for the user.
    pub fn message(&self, name: &str) -> (r: String)
        ensures
            r@ == self.text(name@),
            self is NoToken ==> r@ == "The token of service "@ + name@ + " is not set"@,
            self is NoBindAddr ==> r@ == "Service "@ + name@ + " requires `bind_addr`"@,
            self matches ServiceProblem::NoDomain(t) ==> r@ == "Service "@ + name@ + " of type "@
                + t.text() + " requires `custom_domains` or `subdomain`"@,
            self matches ServiceProblem::NoSecretKey(t) ==> r@ == "Service "@ + name@
                + " of type "@ + t.text() + " requires `secret_key`"@,
            self matches ServiceProblem::PortNotAllowed(p) ==> r@ == "Service "@ + name@
                + " uses port "@ + text::decimal(*p as nat) + " which is not in allow_ports"@,
            self matches ServiceProblem::HealthCheckType(t) ==> r@ == "Service "@ + name@
                + " health_check.type must be 'tcp' or 'http', got '"@ + t@ + "'"@,
            self is NoHealthCheckPath ==> r@ == "Service "@ + name@
                + " HTTP health_check requires `path`"@,
            self matches ServiceProblem::BandwidthLimit(l) ==> r@ == "Service "@ + name@
                + " has invalid bandwidth_limit '"@ + l@ + "'"@,
            self matches ServiceProblem::ProxyProtocolVersion(v) ==> r@ == "Service "@ + name@
                + " proxy_protocol_version must be 'v1' or 'v2', got '"@ + v@ + "'"@,
            self is NoLocalAddr ==> r@ == "Service "@ + name@
                + " requires `local_addr` or `plugin`"@,
    {
        let mut m = match self {
            ServiceProblem::NoToken => "The token of service ".to_string(),
            _ => "Service ".to_string(),
        };
        m.append(name);
        match self {
            ServiceProblem::NoToken => {
                m.append(" is not set");
            },
            ServiceProblem::NoBindAddr => {
                m.append(" requires `bind_addr`");
            },
            ServiceProblem::NoDomain(t) => {
                m.append(" of type ");
                m.append(t.name());
                m.append(" requires `custom_domains` or `subdomain`");
            },
            ServiceProblem::NoSecretKey(t) => {
                m.append(" of type ");
                m.append(t.name());
                m.append(" requires `secret_key`");
            },
            ServiceProblem::PortNotAllowed(p) => {
                m.append(" uses port ");
                text::push_decimal(&mut m, *p as u64);
                m.append(" which is not in allow_ports");
            },
            ServiceProblem::HealthCheckType(t) => {
                m.append(" health_check.type must be 'tcp' or 'http', got '");
                m.append(t.as_str());
                m.append("'");
            },
            ServiceProblem::NoHealthCheckPath => {
                m.append(" HTTP health_check requires `path`");
            },
            ServiceProblem::BandwidthLimit(l) => {
                m.append(" has invalid bandwidth_limit '");
                m.append(l.as_str());
                m.append("'");
            },
            ServiceProblem::ProxyProtocolVersion(v) => {
                m.append(" proxy_protocol_version must be 'v1' or 'v2', got '");
                m.append(v.as_str());
                m.append("'");
            },
            ServiceProblem::NoLocalAddr => {
                m.append(" requires `local_addr` or `plugin`");
            },
        }
        m
    }
}

impl ServiceProblem {
    /// The error below this one, where there is one: why a bandwidth limit cannot be read.
    pub open spec fn below(self) -> Option<RateErrorView> {
        match self {
            ServiceProblem::BandwidthLimit(l) => match rate::rate_of(l@) {
                Ok(_) => None,
                Err(e) => Some(e),
            },
            _ => None,
        }
    }

    /// Computes [`below`](Self::below).
    pub fn cause(&self) -> (r: Option<RateError>)
        ensures
            match r {
                Some(e) => self.below() == Some(e@),
                None => self.below() is None,
            },
            self matches ServiceProblem::BandwidthLimit(l) ==> match (r, rate::rate_of(l@)) {
                (Some(e), Err(w)) => e@ == w,
                (None, Ok(_)) => true,
                _ => false,
            },
            self !is BandwidthLimit ==> r is None,
    {
        match self {
            ServiceProblem::BandwidthLimit(l) => match rate::parse_bandwidth_limit(l.as_str()) {
                Ok(_) => None,
                Err(e) => Some(e),
            },
            _ => None,
        }
    }
}

/// What is wrong with a transport.
#[derive(Debug)]
pub enum TransportProblem {
    /// The proxy is no URL.
    InvalidProxyUrl(String),
    /// The proxy speaks neither SOCKS5 nor HTTP.
    UnknownProxyScheme(String),
    /// The TLS transport without a TLS section.
    NoTls,
    /// A TLS server without its certificate or the password of it.
    NoPkcs12,
    /// A QUIC server without a TLS section.
    QuicNoTls,
    /// A QUIC server without its certificate or the password of it.
    QuicNoPkcs12,
}

impl TransportProblem {
    /// The message for the user.
    pub open spec fn text(self) -> Seq<char> {
        match self {
            TransportProblem::InvalidProxyUrl(u) => "Invalid proxy URL: "@ + u@,
            TransportProblem::UnknownProxyScheme(s) => "Unknown proxy scheme: "@ + s@,
            TransportProblem::NoTls => "Missing TLS configuration"@,
            TransportProblem::NoPkcs12 => "Missing `pkcs12` or `pkcs12_password`"@,
            TransportProblem::QuicNoTls => "QUIC transport requires TLS configuration"@,
            TransportProblem::QuicNoPkcs12 =>
                "QUIC transport requires `pkcs12` and `pkcs12_password`"@,
        }
    }

    /// Renders the problem for the user.
    pub fn message(&self) -> (r: String)
        ensures
            r@ == self.text(),
            self matches TransportProblem::InvalidProxyUrl(u) ==> r@ == "Invalid proxy URL: "@ + u@,
            self matches TransportProblem::UnknownProxyScheme(s) ==> r@ == "Unknown proxy scheme: "@
                + s@,
            self is NoTls ==> r@ == "Missing TLS configuration"@,
            self is NoPkcs12 ==> r@ == "Missing `pkcs12` or `pkcs12_password`"@,
            self is QuicNoTls ==> r@ == "QUIC transport requires TLS configuration"@,
            self is QuicNoPkcs12 ==> r@ == "QUIC transport requires `pkcs12` and `pkcs12_password`"@,
    {
        match self {
            TransportProblem::InvalidProxyUrl(u) => {
                let mut m = "Invalid proxy URL: ".to_string();
                m.append(u.as_str());
                m
            },
            TransportProblem::UnknownProxyScheme(s) => {
                let mut m = "Unknown proxy scheme: ".to_string();
                m.append(s.as_str());
                m
            },
            TransportProblem::NoTls => "Missing TLS configuration".to_string(),
            TransportProblem::NoPkcs12 => "Missing `pkcs12` or `pkcs12_password`".to_string(),
            TransportProblem::QuicNoTls => {
                "QUIC transport requires TLS configuration".to_string()
            },
            TransportProblem::QuicNoPkcs12 => {
                "QUIC transport requires `pkcs12` and `pkcs12_password`".to_string()
            },
        }
    }
}

/// What is wrong with a configuration.
#[derive(Debug)]
pub enum ConfigError {
    /// A service, by the name that it has in the configuration.
    Service(String, ServiceProblem),
    Transport(TransportProblem),
    /// There is neither a server nor a client.
    Nothing,
}

impl ConfigError {
    /// The message for the user.
    pub open spec fn text(self) -> Seq<char> {
        match self {
            ConfigError::Service(name, p) => p.text(name@),
            ConfigError::Transport(p) => p.text(),
            ConfigError::Nothing => "Neither of `[server]` or `[client]` is defined"@,
        }
    }

    /// Renders the error for the user.
    pub fn message(&self) -> (r: String)
        ensures
            r@ == self.text(),
            self is Nothing ==> r@ == "Neither of `[server]` or `[client]` is defined"@,
            self matches ConfigError::Service(name, p) ==> r@ == p.text(name@),
            self matches ConfigError::Transport(p) ==> r@ == p.text(),
    {
        match self {
            ConfigError::Service(name, p) => p.message(name.as_str()),
            ConfigError::Transport(p) => p.message(),
            ConfigError::Nothing => {
                "Neither of `[server]` or `[client]` is defined".to_string()
            },
        }
    }

    /// The error below this one, where there is one.
    pub fn cause(&self) -> (r: Option<RateError>)
        ensures
            match r {
                Some(e) => self is Service && self->Service_1.below() == Some(e@),
                None => self is Service ==> self->Service_1.below() is None,
            },
    {
        match self {
            ConfigError::Service(_, p) => p.cause(),
            _ => None,
        }
    }
}

// ---------- transports ----------

/// The error of the `url` crate.
#[verifier::external_type_specification]
#[verifier::external_body]
pub struct ExUrlParseError(url::ParseError);

/// The scheme of the URL that `url::Url::parse` reads in a text; `None` where it reads none.
pub uninterp spec fn parsed_scheme(url: Seq<char>) -> Option<Seq<char>>;

/// `url::Url::parse` and then `url::Url::scheme`. Both depend on the text alone.
#[verifier::external_body]
fn url_scheme(url: &str) -> (r: Result<String, url::ParseError>)
    ensures
        match r {
            Ok(s) => parsed_scheme(url@) == Some(s@),
            Err(_) => parsed_scheme(url@) is None,
        },
{
    url::Url::parse(url).map(|u| u.scheme().to_string())
}

/// Whether a proxy with this scheme can be used.
pub open spec fn is_proxy_scheme(scheme: Seq<char>) -> bool {
    scheme == "socks5"@ || scheme == "http"@
}

/// Checks the scheme of a proxy.
pub fn check_proxy_scheme(scheme: String) -> (r: Result<(), TransportProblem>)
    ensures
        match r {
            Ok(_) => is_proxy_scheme(scheme@),
            Err(p) => !is_proxy_scheme(scheme@) && p == TransportProblem::UnknownProxyScheme(
                scheme,
            ),
        },
{
    if text::str_eq(scheme.as_str(), "socks5") || text::str_eq(scheme.as_str(), "http") {
        Ok(())
    } else {
        Err(TransportProblem::UnknownProxyScheme(scheme))
    }
}

/// Whether the proxy, if there is one, can be used.
pub open spec fn proxy_usable(config: TransportConfig) -> bool {
    match config.tcp.proxy {
        Some(url) => parsed_scheme(url@) is Some && is_proxy_scheme(
            parsed_scheme(url@).unwrap(),
        ),
        None => true,
    }
}

/// Whether a server has its certificate.
pub open spec fn has_certificate(config: TransportConfig) -> bool {
    config.tls is Some && config.tls.unwrap().pkcs12 is Some
        && config.tls.unwrap().pkcs12_password is Some
}

/// What checking a transport comes to.
pub open spec fn transport_checked(
    config: TransportConfig,
    is_server: bool,
    r: Result<(), TransportProblem>,
) -> bool {
    let tls = config.transport_type == TransportType::Tls;
    let quic = config.transport_type == TransportType::Quic;
    match r {
        Ok(_) => proxy_usable(config) && (tls ==> config.tls is Some) && ((tls || quic) && is_server
            ==> has_certificate(config)),
        Err(TransportProblem::InvalidProxyUrl(u)) => config.tcp.proxy == Some(u) && parsed_scheme(
            u@,
        ) is None,
        Err(TransportProblem::UnknownProxyScheme(s)) => config.tcp.proxy is Some && parsed_scheme(
            config.tcp.proxy.unwrap()@,
        ) == Some(s@) && !is_proxy_scheme(s@),
        Err(TransportProblem::NoTls) => proxy_usable(config) && tls && config.tls is None,
        Err(TransportProblem::NoPkcs12) => proxy_usable(config) && tls && is_server
            && config.tls is Some && !has_certificate(config),
        Err(TransportProblem::QuicNoTls) => proxy_usable(config) && quic && is_server
            && config.tls is None,
        Err(TransportProblem::QuicNoPkcs12) => proxy_usable(config) && quic && is_server
            && config.tls is Some && !has_certificate(config),
    }
}

/// Whether a TLS section has the certificate and its password.
fn tls_has_certificate(tls: &TlsConfig) -> (r: bool)
    ensures
        r == (tls.pkcs12 is Some && tls.pkcs12_password is Some),
{
    tls.pkcs12.is_some() && tls.pkcs12_password.is_some()
}

/// Checks the proxy of a transport.
fn check_proxy(proxy: &Option<String>) -> (r: Result<(), TransportProblem>)
    ensures
        match r {
            Ok(_) => match proxy {
                Some(url) => parsed_scheme(url@) is Some && is_proxy_scheme(
                    parsed_scheme(url@).unwrap(),
                ),
                None => true,
            },
            Err(TransportProblem::InvalidProxyUrl(u)) => *proxy == Some(u) && parsed_scheme(
                u@,
            ) is None,
            Err(TransportProblem::UnknownProxyScheme(s)) => proxy is Some && parsed_scheme(
                proxy.unwrap()@,
            ) == Some(s@) && !is_proxy_scheme(s@),
            Err(_) => false,
        },
{
    match proxy {
        Some(url) => match url_scheme(url.as_str()) {
            Ok(scheme) => check_proxy_scheme(scheme),
            Err(_) => Err(TransportProblem::InvalidProxyUrl(url.clone())),
        },
        None => Ok(()),
    }
}

impl Config {
    /// Checks a transport.
    pub fn validate_transport_config(config: &TransportConfig, is_server: bool) -> (r: Result<
        (),
        TransportProblem,
    >)
        ensures
            transport_checked(*config, is_server, r),
    {
        match check_proxy(&config.tcp.proxy) {
            Ok(_) => {},
            Err(p) => {
                return Err(p);
            },
        }
        match config.transport_type {
            TransportType::Tcp
            | TransportType::Noise
            | TransportType::Websocket
            | TransportType::Kcp => Ok(()),
            TransportType::Tls => match &config.tls {
                None => Err(TransportProblem::NoTls),
                Some(tls) => {
                    if is_server && !tls_has_certificate(tls) {
                        Err(TransportProblem::NoPkcs12)
                    } else {
                        Ok(())
                    }
                },
            },
            TransportType::Quic => {
                if !is_server {
                    return Ok(());
                }
                match &config.tls {
                    None => Err(TransportProblem::QuicNoTls),
                    Some(tls) => {
                        if tls_has_certificate(tls) {
                            Ok(())
                        } else {
                            Err(TransportProblem::QuicNoPkcs12)
                        }
                    },
                }
            },
        }
    }
}

// ---------- tokens ----------

/// The token of a service: its own, else that of the authentication section, else the default.
pub open spec fn effective_token(
    own: Option<MaskedString>,
    auth: Option<AuthConfig>,
    default_token: Option<MaskedString>,
) -> Option<MaskedString> {
    if own is Some {
        own
    } else if auth is Some && auth.unwrap().token is Some {
        auth.unwrap().token
    } else {
        default_token
    }
}

/// Gives a service its token.
fn set_token(
    token: &mut Option<MaskedString>,
    auth: &Option<AuthConfig>,
    default_token: &Option<MaskedString>,
)
    ensures
        *final(token) == effective_token(*old(token), *auth, *default_token),
{
    if token.is_none() {
        if let Some(a) = auth {
            if let Some(t) = &a.token {
                *token = Some(t.clone());
            }
        }
        if token.is_none() {
            if let Some(t) = default_token {
                *token = Some(t.clone());
            }
        }
    }
}

// ---------- services of the server ----------

/// What becomes of a service of the server: it learns its name and, if it is enabled, its token.
pub open spec fn prepared_server_service(
    key: String,
    s: ServerServiceConfig,
    auth: Option<AuthConfig>,
    default_token: Option<MaskedString>,
) -> ServerServiceConfig {
    ServerServiceConfig {
        name: key,
        token: if s.enabled() {
            effective_token(s.token, auth, default_token)
        } else {
            s.token
        },
        ..s
    }
}

/// The port in an address: what follows the last colon, where that is a port number.
pub open spec fn port_in(addr: Seq<char>) -> Option<u16> {
    text::port_number(text::after_last(addr, ':'))
}

/// Whether a port lies in one of the ranges.
pub open spec fn port_allowed(ranges: Seq<PortRange>, port: u16) -> bool {
    exists|i: int| 0 <= i < ranges.len() && (#[trigger] ranges[i]).start <= port <= ranges[i].end
}

/// What is wrong with a health check.
pub open spec fn health_check_problem(hc: Option<HealthCheckConfig>) -> Option<ServiceProblem> {
    match hc {
        Some(hc) => if hc.check_type@ == "tcp"@ {
            None
        } else if hc.check_type@ == "http"@ {
            if hc.path is None {
                Some(ServiceProblem::NoHealthCheckPath)
            } else {
                None
            }
        } else {
            Some(ServiceProblem::HealthCheckType(hc.check_type))
        },
        None => None,
    }
}

/// What is wrong with a bandwidth limit.
pub open spec fn bandwidth_problem(limit: Option<String>) -> Option<ServiceProblem> {
    match limit {
        Some(l) => if rate::rate_of(l@) is Err {
            Some(ServiceProblem::BandwidthLimit(l))
        } else {
            None
        },
        None => None,
    }
}

/// What is wrong with a version of the proxy protocol.
pub open spec fn proxy_protocol_problem(version: Option<String>) -> Option<ServiceProblem> {
    match version {
        Some(v) => if v@ == "v1"@ || v@ == "v2"@ {
            None
        } else {
            Some(ServiceProblem::ProxyProtocolVersion(v))
        },
        None => None,
    }
}

/// What is wrong with the port of a service.
pub open spec fn port_problem(
    s: ServerServiceConfig,
    allow_ports: Option<Vec<PortRange>>,
) -> Option<ServiceProblem> {
    match allow_ports {
        Some(ranges) => if s.binds() && s.bind_addr@.len() > 0 && port_in(s.bind_addr@) is Some
            && port_in(s.bind_addr@).unwrap() > 0 && !port_allowed(
            ranges@,
            port_in(s.bind_addr@).unwrap(),
        ) {
            Some(ServiceProblem::PortNotAllowed(port_in(s.bind_addr@).unwrap()))
        } else {
            None
        },
        None => None,
    }
}

/// The first thing that is wrong with a service of the server, once it is prepared.
pub open spec fn server_service_problem(
    s: ServerServiceConfig,
    allow_ports: Option<Vec<PortRange>>,
) -> Option<ServiceProblem> {
    if !s.enabled() {
        None
    } else if s.token is None {
        Some(ServiceProblem::NoToken)
    } else if s.binds() && s.bind_addr@.len() == 0 {
        Some(ServiceProblem::NoBindAddr)
    } else if s.service_type.is_web() && s.custom_domains is None && s.subdomain is None {
        Some(ServiceProblem::NoDomain(s.service_type))
    } else if s.service_type.is_secret() && s.secret_key is None {
        Some(ServiceProblem::NoSecretKey(s.service_type))
    } else if port_problem(s, allow_ports) is Some {
        port_problem(s, allow_ports)
    } else if health_check_problem(s.health_check) is Some {
        health_check_problem(s.health_check)
    } else if bandwidth_problem(s.bandwidth_limit) is Some {
        bandwidth_problem(s.bandwidth_limit)
    } else {
        proxy_protocol_problem(s.proxy_protocol_version)
    }
}

/// Computes [`health_check_problem`].
fn check_health_check(hc: &Option<HealthCheckConfig>) -> (r: Option<ServiceProblem>)
    ensures
        r == health_check_problem(*hc),
{
    match hc {
        Some(hc) => {
            if text::str_eq(hc.check_type.as_str(), "tcp") {
                None
            } else if text::str_eq(hc.check_type.as_str(), "http") {
                if hc.path.is_none() {
                    Some(ServiceProblem::NoHealthCheckPath)
                } else {
                    None
                }
            } else {
                Some(ServiceProblem::HealthCheckType(hc.check_type.clone()))
            }
        },
        None => None,
    }
}

/// Computes [`bandwidth_problem`].
fn check_bandwidth(limit: &Option<String>) -> (r: Option<ServiceProblem>)
    ensures
        r == bandwidth_problem(*limit),
{
    match limit {
        Some(l) => match rate::parse_bandwidth_limit(l.as_str()) {
            Ok(_) => None,
            Err(_) => Some(ServiceProblem::BandwidthLimit(l.clone())),
        },
        None => None,
    }
}

/// Computes [`proxy_protocol_problem`].
fn check_proxy_protocol(version: &Option<String>) -> (r: Option<ServiceProblem>)
    ensures
        r == proxy_protocol_problem(*version),
{
    match version {
        Some(v) => {
            if text::str_eq(v.as_str(), "v1") || text::str_eq(v.as_str(), "v2") {
                None
            } else {
                Some(ServiceProblem::ProxyProtocolVersion(v.clone()))
            }
        },
        None => None,
    }
}

/// Computes [`port_allowed`].
fn any_range_contains(ranges: &Vec<PortRange>, port: u16) -> (r: bool)
    ensures
        r == port_allowed(ranges@, port),
{
    let mut i: usize = 0;
    while i < ranges.len()
        invariant
            i <= ranges@.len(),
            forall|j: int|
                0 <= j < i ==> !((#[trigger] ranges@[j]).start <= port <= ranges@[j].end),
        decreases ranges@.len() - i,
    {
        if ranges[i].contains(port) {
            return true;
        }
        i = i + 1;
    }
    false
}

/// Computes [`port_problem`].
fn check_port(s: &ServerServiceConfig, allow_ports: &Option<Vec<PortRange>>) -> (r: Option<
    ServiceProblem,
>)
    ensures
        r == port_problem(*s, *allow_ports),
{
    match allow_ports {
        Some(ranges) => {
            if s.needs_bind_addr() && s.bind_addr.as_str().unicode_len() > 0 {
                if let Some(port) = text::parse_u16(
                    text::split_last(s.bind_addr.as_str(), ':'),
                ) {
                    if port > 0 && !any_range_contains(ranges, port) {
                        return Some(ServiceProblem::PortNotAllowed(port));
                    }
                }
            }
            None
        },
        None => None,
    }
}

/// Computes [`server_service_problem`].
fn check_server_service(
    s: &ServerServiceConfig,
    allow_ports: &Option<Vec<PortRange>>,
) -> (r: Option<ServiceProblem>)
    ensures
        r == server_service_problem(*s, *allow_ports),
{
    if !s.is_enabled() {
        return None;
    }
    if s.token.is_none() {
        return Some(ServiceProblem::NoToken);
    }
    if s.needs_bind_addr() && s.bind_addr.as_str().unicode_len() == 0 {
        return Some(ServiceProblem::NoBindAddr);
    }
    let t = s.service_type;
    let web = t == ServiceType::Http || t == ServiceType::Https;
    if web && s.custom_domains.is_none() && s.subdomain.is_none() {
        return Some(ServiceProblem::NoDomain(t));
    }
    let secret = t == ServiceType::Stcp || t == ServiceType::Sudp || t == ServiceType::Xtcp;
    if secret && s.secret_key.is_none() {
        return Some(ServiceProblem::NoSecretKey(t));
    }
    if let Some(p) = check_port(s, allow_ports) {
        return Some(p);
    }
    if let Some(p) = check_health_check(&s.health_check) {
        return Some(p);
    }
    if let Some(p) = check_bandwidth(&s.bandwidth_limit) {
        return Some(p);
    }
    check_proxy_protocol(&s.proxy_protocol_version)
}

/// Prepares a service of the server.
fn prepare_server_service(
    key: String,
    s: &mut ServerServiceConfig,
    auth: &Option<AuthConfig>,
    default_token: &Option<MaskedString>,
)
    ensures
        *final(s) == prepared_server_service(key, *old(s), *auth, *default_token),
{
    s.name = key;
    if s.is_enabled() {
        set_token(&mut s.token, auth, default_token);
    }
}

/// The services of the server, the first `n` of them prepared.
pub open spec fn prepared_server_services(
    server: ServerConfig,
    n: int,
) -> Seq<(String, ServerServiceConfig)> {
    let entries = server.services.entries();
    Seq::new(
        entries.len(),
        |i: int|
            if i < n {
                (
                    entries[i].0,
                    prepared_server_service(
                        entries[i].0,
                        entries[i].1,
                        server.auth,
                        server.default_token,
                    ),
                )
            } else {
                entries[i]
            },
    )
}

/// What is wrong with service `i` of the server.
pub open spec fn server_problem_at(server: ServerConfig, i: int) -> Option<ServiceProblem> {
    server_service_problem(
        prepared_server_services(server, server.services.entries().len() as int)[i].1,
        server.allow_ports,
    )
}

/// What checking a server comes to. Services are looked at in their order, and those up to
/// the first wrong one are prepared.
pub open spec fn server_checked(
    before: ServerConfig,
    after: ServerConfig,
    r: Result<(), ConfigError>,
) -> bool {
    let n = before.services.entries().len() as int;
    &&& after == (ServerConfig { services: after.services, ..before })
    &&& match r {
        Err(ConfigError::Service(name, problem)) => exists|k: int|
            {
                &&& 0 <= k < n
                &&& forall|j: int| 0 <= j < k ==> #[trigger] server_problem_at(before, j) is None
                &&& #[trigger] server_problem_at(before, k) == Some(problem)
                &&& name == before.services.entries()[k].0
                &&& after.services.entries() == prepared_server_services(before, k + 1)
            },
        Err(ConfigError::Transport(p)) => {
            &&& forall|j: int| 0 <= j < n ==> #[trigger] server_problem_at(before, j) is None
            &&& after.services.entries() == prepared_server_services(before, n)
            &&& transport_checked(before.transport, true, Err(p))
        },
        Err(ConfigError::Nothing) => false,
        Ok(_) => {
            &&& forall|j: int| 0 <= j < n ==> #[trigger] server_problem_at(before, j) is None
            &&& after.services.entries() == prepared_server_services(before, n)
            &&& transport_checked(before.transport, true, Ok(()))
        },
    }
}

impl Config {
    /// Checks the server side and fills in the names and tokens of its services.
    pub fn validate_server_config(server: &mut ServerConfig) -> (r: Result<(), ConfigError>)
        ensures
            server_checked(*old(server), *final(server), r),
    {
        let ghost before = *server;
        let n = server.services.len();
        let mut i: usize = 0;
        assert(prepared_server_services(before, 0) == before.services.entries());
        while i < n
            invariant
                i <= n,
                before == *old(server),
                n == before.services.entries().len(),
                *server == (ServerConfig { services: server.services, ..before }),
                server.services.entries() == prepared_server_services(before, i as int),
                forall|j: int| 0 <= j < i ==> #[trigger] server_problem_at(before, j) is None,
            decreases n - i,
        {
            let ghost prepared = prepared_server_services(before, i as int);
            let ghost whole = prepared_server_services(before, n as int);
            let key = server.services.key_at(i).clone();
            let s = server.services.value_at_mut(i);
            prepare_server_service(key, s, &server.auth, &server.default_token);
            let problem = check_server_service(s, &server.allow_ports);
            proof {
                assert(prepared_server_services(before, i + 1) == prepared.update(
                    i as int,
                    whole[i as int],
                ));
                assert(problem == server_problem_at(before, i as int));
            }
            if let Some(p) = problem {
                let name = server.services.key_at(i).clone();
                return Err(ConfigError::Service(name, p));
            }
            i = i + 1;
        }
        match Config::validate_transport_config(&server.transport, true) {
            Ok(_) => Ok(()),
            Err(p) => Err(ConfigError::Transport(p)),
        }
    }
}

// ---------- services of the client ----------

/// The name under which the server knows a service of the client.
pub open spec fn service_name(user: Option<String>, key: Seq<char>) -> Seq<char> {
    match user {
        Some(u) => u@ + "."@ + key,
        None => key,
    }
}

/// Whether the client starts a service: it is enabled and, where there is a list of services
/// to start, it is in the list.
pub open spec fn is_started(client: ClientConfig, key: Seq<char>, s: ClientServiceConfig) -> bool {
    s.enabled() && match client.start {
        Some(list) => exists|i: int| 0 <= i < list@.len() && (#[trigger] list@[i])@ == key,
        None => true,
    }
}

/// What becomes of a service of the client, its name apart. If it is started, it learns its
/// token; once it has one, the time before a new try and the preferred address family are
/// those of the client where it says nothing.
pub open spec fn prepared_client_service(
    client: ClientConfig,
    key: String,
    s: ClientServiceConfig,
) -> ClientServiceConfig {
    if is_started(client, key@, s) {
        let token = effective_token(s.token, client.auth, client.default_token);
        if token is Some {
            ClientServiceConfig {
                token,
                retry_interval: if s.retry_interval is Some {
                    s.retry_interval
                } else {
                    Some(client.retry_interval)
                },
                prefer_ipv6: s.prefer_ipv6 || client.prefer_ipv6 == Some(true),
                ..s
            }
        } else {
            s
        }
    } else {
        s
    }
}

/// Whether `after` is the service `before` with its name and all that it learns.
pub open spec fn client_service_prepared(
    client: ClientConfig,
    key: String,
    before: ClientServiceConfig,
    after: ClientServiceConfig,
) -> bool {
    &&& after.name@ == service_name(client.user, key@)
    &&& after == (ClientServiceConfig {
        name: after.name,
        ..prepared_client_service(client, key, before)
    })
}

/// The first thing that is wrong with a service of the client.
pub open spec fn client_problem(
    client: ClientConfig,
    key: String,
    s: ClientServiceConfig,
) -> Option<ServiceProblem> {
    if !is_started(client, key@, s) {
        None
    } else if effective_token(s.token, client.auth, client.default_token) is None {
        Some(ServiceProblem::NoToken)
    } else if !s.visits() && !s.service_type.is_web() && s.local_addr@.len() == 0
        && s.plugin is None {
        Some(ServiceProblem::NoLocalAddr)
    } else {
        bandwidth_problem(s.bandwidth_limit)
    }
}

/// What is wrong with service `i` of the client.
pub open spec fn client_problem_at(client: ClientConfig, i: int) -> Option<ServiceProblem> {
    client_problem(client, client.services.entries()[i].0, client.services.entries()[i].1)
}

/// Whether the first `n` services of the client are prepared and the others are as before.
pub open spec fn client_services_prepared(
    client: ClientConfig,
    after: Seq<(String, ClientServiceConfig)>,
    n: int,
) -> bool {
    let entries = client.services.entries();
    &&& after.len() == entries.len()
    &&& forall|i: int|
        0 <= i < entries.len() ==> (#[trigger] after[i]).0 == entries[i].0 && if i < n {
            client_service_prepared(client, entries[i].0, entries[i].1, after[i].1)
        } else {
            after[i].1 == entries[i].1
        }
}

/// What checking a client comes to. Services are looked at in their order, and those up to
/// the first wrong one are prepared.
pub open spec fn client_checked(
    before: ClientConfig,
    after: ClientConfig,
    r: Result<(), ConfigError>,
) -> bool {
    let n = before.services.entries().len() as int;
    &&& after == (ClientConfig { services: after.services, ..before })
    &&& match r {
        Err(ConfigError::Service(name, problem)) => exists|k: int|
            {
                &&& 0 <= k < n
                &&& forall|j: int| 0 <= j < k ==> #[trigger] client_problem_at(before, j) is None
                &&& #[trigger] client_problem_at(before, k) == Some(problem)
                &&& name == before.services.entries()[k].0
                &&& client_services_prepared(before, after.services.entries(), k + 1)
            },
        Err(ConfigError::Transport(p)) => {
            &&& forall|j: int| 0 <= j < n ==> #[trigger] client_problem_at(before, j) is None
            &&& client_services_prepared(before, after.services.entries(), n)
            &&& transport_checked(before.transport, false, Err(p))
        },
        Err(ConfigError::Nothing) => false,
        Ok(_) => {
            &&& forall|j: int| 0 <= j < n ==> #[trigger] client_problem_at(before, j) is None
            &&& client_services_prepared(before, after.services.entries(), n)
            &&& transport_checked(before.transport, false, Ok(()))
        },
    }
}

/// What all services of a client share.
struct ClientDefaults<'a> {
    user: &'a Option<String>,
    start: &'a Option<Vec<String>>,
    auth: &'a Option<AuthConfig>,
    default_token: &'a Option<MaskedString>,
    retry_interval: u64,
    prefer_ipv6: Option<bool>,
}

impl<'a> ClientDefaults<'a> {
    spec fn of(&self, client: ClientConfig) -> bool {
        &&& *self.user == client.user
        &&& *self.start == client.start
        &&& *self.auth == client.auth
        &&& *self.default_token == client.default_token
        &&& self.retry_interval == client.retry_interval
        &&& self.prefer_ipv6 == client.prefer_ipv6
    }
}

/// Prepares a service of the client and looks for what is wrong with it.
fn prepare_client_service(
    key: &String,
    s: &mut ClientServiceConfig,
    d: &ClientDefaults,
    Ghost(client): Ghost<ClientConfig>,
) -> (r: Option<ServiceProblem>)
    requires
        d.of(client),
    ensures
        client_service_prepared(client, *key, *old(s), *final(s)),
        r == client_problem(client, *key, *old(s)),
{
    s.name = match d.user {
        Some(user) => {
            let mut name = user.clone();
            name.append(".");
            name.append(key.as_str());
            name
        },
        None => key.clone(),
    };
    if !s.is_enabled() {
        return None;
    }
    if let Some(start) = d.start {
        if !text::list_contains(start, key.as_str()) {
            return None;
        }
    }
    set_token(&mut s.token, d.auth, d.default_token);
    if s.token.is_none() {
        return Some(ServiceProblem::NoToken);
    }
    if s.retry_interval.is_none() {
        s.retry_interval = Some(d.retry_interval);
    }
    if let Some(prefer_ipv6) = d.prefer_ipv6 {
        if !s.prefer_ipv6 {
            s.prefer_ipv6 = prefer_ipv6;
        }
    }
    let web = s.service_type == ServiceType::Http || s.service_type == ServiceType::Https;
    if !s.is_visitor() && !web && s.local_addr.as_str().unicode_len() == 0 && s.plugin.is_none() {
        return Some(ServiceProblem::NoLocalAddr);
    }
    check_bandwidth(&s.bandwidth_limit)
}

impl Config {
    /// Checks the client side and fills in what its services leave to it.
    pub fn validate_client_config(client: &mut ClientConfig) -> (r: Result<(), ConfigError>)
        ensures
            client_checked(*old(client), *final(client), r),
    {
        let ghost before = *client;
        let n = client.services.len();
        let mut i: usize = 0;
        while i < n
            invariant
                i <= n,
                before == *old(client),
                n == before.services.entries().len(),
                *client == (ClientConfig { services: client.services, ..before }),
                client_services_prepared(before, client.services.entries(), i as int),
                forall|j: int| 0 <= j < i ==> #[trigger] client_problem_at(before, j) is None,
            decreases n - i,
        {
            let ghost entries = client.services.entries();
            let ghost given = before.services.entries();
            assert(entries[i as int].0 == given[i as int].0);
            let key = client.services.key_at(i).clone();
            let s = client.services.value_at_mut(i);
            let d = ClientDefaults {
                user: &client.user,
                start: &client.start,
                auth: &client.auth,
                default_token: &client.default_token,
                retry_interval: client.retry_interval,
                prefer_ipv6: client.prefer_ipv6,
            };
            let problem = prepare_client_service(&key, s, &d, Ghost(before));
            proof {
                let now = client.services.entries();
                assert(client_services_prepared(before, now, i + 1)) by {
                    assert forall|j: int| 0 <= j < given.len() implies (#[trigger] now[j]).0
                        == given[j].0 && if j < i + 1 {
                        client_service_prepared(before, given[j].0, given[j].1, now[j].1)
                    } else {
                        now[j].1 == given[j].1
                    } by {
                        assert(entries[j].0 == given[j].0);
                    }
                }
                assert(problem == client_problem_at(before, i as int));
            }
            if let Some(p) = problem {
                return Err(ConfigError::Service(key, p));
            }
            i = i + 1;
        }
        match Config::validate_transport_config(&client.transport, false) {
            Ok(_) => Ok(()),
            Err(p) => Err(ConfigError::Transport(p)),
        }
    }

    /// Checks the whole configuration: first the server, then the client. There must be one
    /// of them.
    pub fn validate(&mut self) -> (r: Result<(), ConfigError>)
        ensures
            old(self).server is Some <==> final(self).server is Some,
            old(self).client is Some <==> final(self).client is Some,
            match r {
                Ok(_) => {
                    &&& old(self).server is Some || old(self).client is Some
                    &&& old(self).server is Some ==> server_checked(
                        old(self).server.unwrap(),
                        final(self).server.unwrap(),
                        Ok(()),
                    )
                    &&& old(self).client is Some ==> client_checked(
                        old(self).client.unwrap(),
                        final(self).client.unwrap(),
                        Ok(()),
                    )
                },
                Err(e) => {
                    ||| e is Nothing && old(self).server is None && old(self).client is None
                    ||| old(self).server is Some && server_checked(
                        old(self).server.unwrap(),
                        final(self).server.unwrap(),
                        Err(e),
                    ) && final(self).client == old(self).client
                    ||| old(self).client is Some && client_checked(
                        old(self).client.unwrap(),
                        final(self).client.unwrap(),
                        Err(e),
                    ) && (old(self).server is Some ==> server_checked(
                        old(self).server.unwrap(),
                        final(self).server.unwrap(),
                        Ok(()),
                    ))
                },
            },
    {
        if let Some(server) = &mut self.server {
            match Config::validate_server_config(server) {
                Ok(_) => {},
                Err(e) => {
                    return Err(e);
                },
            }
        }
        if let Some(client) = &mut self.client {
            match Config::validate_client_config(client) {
                Ok(_) => {},
                Err(e) => {
                    return Err(e);
                },
            }
        }
        if self.server.is_none() && self.client.is_none() {
            Err(ConfigError::Nothing)
        } else {
            Ok(())
        }
    }
}

// ---------- what follows ----------

/// The token of a service is never replaced by that of the side it is on.
pub proof fn own_token_wins(
    own: MaskedString,
    auth: Option<AuthConfig>,
    default_token: Option<MaskedString>,
)
    ensures
        effective_token(Some(own), auth, default_token) == Some(own),
{
}

/// In a valid server every enabled service has its name and a token.
pub proof fn valid_server_services_have_tokens(before: ServerConfig, after: ServerConfig, i: int)
    requires
        server_checked(before, after, Ok(())),
        0 <= i < after.services.entries().len(),
    ensures
        after.services.entries()[i].1.name == after.services.entries()[i].0,
        after.services.entries()[i].1.enabled() ==> after.services.entries()[i].1.token is Some,
{
    assert(server_problem_at(before, i) is None);
}

/// In a valid server an enabled service has what it needs: an address with an allowed port, a
/// host, or a key, as its type asks for; and its limit, its health check and its version of
/// the proxy protocol can be used.
pub proof fn valid_server_services_can_run(before: ServerConfig, after: ServerConfig, i: int)
    requires
        server_checked(before, after, Ok(())),
        0 <= i < after.services.entries().len(),
        after.services.entries()[i].1.enabled(),
    ensures
        ({
            let s = after.services.entries()[i].1;
            &&& s.binds() ==> s.bind_addr@.len() > 0
            &&& s.binds() && after.allow_ports is Some && port_in(s.bind_addr@) is Some && port_in(
                s.bind_addr@,
            ).unwrap() > 0 ==> port_allowed(
                after.allow_ports.unwrap()@,
                port_in(s.bind_addr@).unwrap(),
            )
            &&& s.service_type.is_web() ==> s.custom_domains is Some || s.subdomain is Some
            &&& s.service_type.is_secret() ==> s.secret_key is Some
            &&& health_check_problem(s.health_check) is None
            &&& s.bandwidth_limit is Some ==> rate::rate_of(s.bandwidth_limit.unwrap()@) is Ok
            &&& s.proxy_protocol_version is Some ==> s.proxy_protocol_version.unwrap()@ == "v1"@
                || s.proxy_protocol_version.unwrap()@ == "v2"@
        }),
{
    assert(server_problem_at(before, i) is None);
}

/// In a valid client every service that is started has a token and a time before a new try.
pub proof fn valid_client_services_have_tokens(before: ClientConfig, after: ClientConfig, i: int)
    requires
        client_checked(before, after, Ok(())),
        0 <= i < after.services.entries().len(),
        is_started(
            before,
            before.services.entries()[i].0@,
            before.services.entries()[i].1,
        ),
    ensures
        after.services.entries()[i].1.token is Some,
        after.services.entries()[i].1.retry_interval is Some,
{
    assert(client_problem_at(before, i) is None);
    assert(after.services.entries()[i].0 == before.services.entries()[i].0);
}

/// Checking a valid server once more finds nothing wrong and changes nothing.
pub proof fn valid_server_stays_valid(
    before: ServerConfig,
    valid: ServerConfig,
    after: ServerConfig,
    r: Result<(), ConfigError>,
)
    requires
        server_checked(before, valid, Ok(())),
        server_checked(valid, after, r),
    ensures
        r is Ok,
        after.services.entries() == valid.services.entries(),
{
    let n = before.services.entries().len() as int;
    let given = before.services.entries();
    let once = valid.services.entries();
    let twice = prepared_server_services(valid, n);
    assert(once.len() == n);
    assert forall|i: int| 0 <= i < n implies #[trigger] twice[i] == once[i] by {
        assert(once[i] == prepared_server_services(before, n)[i]);
    }
    assert(twice == once);
    assert forall|i: int| 0 <= i < n implies #[trigger] server_problem_at(valid, i) is None by {
        assert(server_problem_at(before, i) is None);
        assert(twice[i] == once[i]);
    }
}

/// Checking a valid client once more finds nothing wrong and changes nothing.
pub proof fn valid_client_stays_valid(
    before: ClientConfig,
    valid: ClientConfig,
    after: ClientConfig,
    r: Result<(), ConfigError>,
)
    requires
        client_checked(before, valid, Ok(())),
        client_checked(valid, after, r),
    ensures
        r is Ok,
        after.services.entries().len() == valid.services.entries().len(),
        forall|i: int|
            0 <= i < valid.services.entries().len() ==> {
                let was = valid.services.entries()[i];
                let is = #[trigger] after.services.entries()[i];
                &&& is.0 == was.0
                &&& is.1.name@ == was.1.name@
                &&& is.1 == (ClientServiceConfig { name: is.1.name, ..was.1 })
            },
{
    let n = before.services.entries().len() as int;
    let given = before.services.entries();
    let once = valid.services.entries();
    assert forall|i: int| 0 <= i < n implies #[trigger] client_problem_at(valid, i) is None by {
        assert(client_problem_at(before, i) is None);
        assert(once[i].0 == given[i].0);
    }
    let twice = after.services.entries();
    assert forall|i: int| 0 <= i < n implies {
        let was = once[i];
        let is = #[trigger] twice[i];
        &&& is.0 == was.0
        &&& is.1.name@ == was.1.name@
        &&& is.1 == (ClientServiceConfig { name: is.1.name, ..was.1 })
    } by {
        assert(once[i].0 == given[i].0);
        assert(client_problem_at(before, i) is None);
        assert(client_problem_at(valid, i) is None);
    }
}

/// What checking a transport comes to, by what the transport says. A proxy must be a URL of the
/// scheme `socks5` or `http`. TLS needs its section, and a server that uses TLS or QUIC needs
/// its certificate with the password. Nothing else is asked for.
pub proof fn transports_are_checked(
    config: TransportConfig,
    is_server: bool,
    r: Result<(), TransportProblem>,
)
    requires
        transport_checked(config, is_server, r),
    ensures
        ({
            let bad_url = config.tcp.proxy is Some && parsed_scheme(
                config.tcp.proxy.unwrap()@,
            ) is None;
            let bad_scheme = config.tcp.proxy is Some && !bad_url && parsed_scheme(
                config.tcp.proxy.unwrap()@,
            ) != Some("socks5"@) && parsed_scheme(config.tcp.proxy.unwrap()@) != Some("http"@);
            let proxy = bad_url || bad_scheme;
            let tls = config.transport_type == TransportType::Tls;
            let quic = config.transport_type == TransportType::Quic;
            let section = config.tls is Some;
            let certificate = section && config.tls.unwrap().pkcs12 is Some
                && config.tls.unwrap().pkcs12_password is Some;
            &&& r is Ok <==> !proxy && (!tls || section) && (!is_server || !(tls || quic)
                || certificate)
            &&& bad_url <==> (r matches Err(e) && e is InvalidProxyUrl)
            &&& bad_scheme <==> (r matches Err(e) && e is UnknownProxyScheme)
            &&& !proxy && tls && !section <==> (r matches Err(e) && e is NoTls)
            &&& !proxy && tls && section && is_server && !certificate <==> (r matches Err(e)
                && e is NoPkcs12)
            &&& !proxy && quic && is_server && !section <==> (r matches Err(e) && e is QuicNoTls)
            &&& !proxy && quic && is_server && section && !certificate <==> (r matches Err(e)
                && e is QuicNoPkcs12)
        }),
        r matches Err(TransportProblem::InvalidProxyUrl(u)) ==> config.tcp.proxy matches Some(url)
            && u@ == url@,
        r matches Err(TransportProblem::UnknownProxyScheme(s)) ==> config.tcp.proxy matches Some(
            url,
        ) && parsed_scheme(url@) == Some(s@),
{
}

/// Where the port of an address stands.
proof fn lemma_port_behind_colon(addr: Seq<char>, port: u16)
    requires
        (seq![':'] + text::decimal(port as nat)).is_suffix_of(addr),
    ensures
        port_in(addr) == Some(port),
{
    let d = text::decimal(port as nat);
    let end = seq![':'] + d;
    let host = addr.take(addr.len() - end.len());
    assert(addr == host + seq![':'] + d) by {
        assert(addr == host + addr.skip(addr.len() - end.len()));
    }
    text::decimal_reads_back(port as nat);
    assert(!d.contains(':')) by {
        if d.contains(':') {
            let i = choose|i: int| 0 <= i < d.len() && d[i] == ':';
            assert(text::is_digit(d[i]));
        }
    }
    text::parts_are_found(d, ':', host);
}

/// A server is accepted if its transport can be used and each of its services that is switched
/// on has a token, of its own or from the server; an address on an allowed port if it is of TCP
/// or UDP; a domain or a subdomain if it is of HTTP; a key if it is secret; no health check, one
/// of TCP or one of HTTP with a path; no limit or one that can be read; and no version of the
/// proxy protocol or one of the two.
pub proof fn usable_servers_are_accepted(
    before: ServerConfig,
    after: ServerConfig,
    r: Result<(), ConfigError>,
)
    requires
        server_checked(before, after, r),
        forall|i: int|
            0 <= i < before.services.entries().len() && (
            #[trigger] before.services.entries()[i]).1.enabled != Some(false) ==> {
                let s = before.services.entries()[i].1;
                let t = s.service_type;
                &&& s.token is Some || before.default_token is Some || (before.auth is Some
                    && before.auth.unwrap().token is Some)
                &&& t == ServiceType::Tcp || t == ServiceType::Udp ==> s.bind_addr@.len() > 0 && (
                before.allow_ports is None || text::port_number(text::after_last(s.bind_addr@, ':'))
                    is None || text::port_number(text::after_last(s.bind_addr@, ':')) == Some(0u16)
                    || exists|p: u16, k: int|
                    #![trigger text::decimal(p as nat), before.allow_ports.unwrap()@[k]]
                    (seq![':'] + text::decimal(p as nat)).is_suffix_of(s.bind_addr@) && 0 <= k
                        < before.allow_ports.unwrap()@.len()
                        && before.allow_ports.unwrap()@[k].start <= p
                        <= before.allow_ports.unwrap()@[k].end)
                &&& t == ServiceType::Http || t == ServiceType::Https ==> s.custom_domains is Some
                    || s.subdomain is Some
                &&& t == ServiceType::Stcp || t == ServiceType::Sudp || t == ServiceType::Xtcp
                    ==> s.secret_key is Some
                &&& s.health_check matches Some(hc) ==> hc.check_type@ == "tcp"@ || (
                hc.check_type@ == "http"@ && hc.path is Some)
                &&& s.bandwidth_limit matches Some(l) ==> rate::rate_of(l@) is Ok
                &&& s.proxy_protocol_version matches Some(v) ==> v@ == "v1"@ || v@ == "v2"@
            },
        before.transport.tcp.proxy matches Some(url) ==> parsed_scheme(url@) == Some("socks5"@)
            || parsed_scheme(url@) == Some("http"@),
        before.transport.transport_type == TransportType::Tls
            || before.transport.transport_type == TransportType::Quic
            ==> before.transport.tls is Some && before.transport.tls.unwrap().pkcs12 is Some
            && before.transport.tls.unwrap().pkcs12_password is Some,
    ensures
        r is Ok,
{
    reveal_strlit("tcp");
    reveal_strlit("http");
    assert("tcp"@.len() == 3 && "http"@.len() == 4);
    let n = before.services.entries().len() as int;
    assert forall|i: int| 0 <= i < n implies #[trigger] server_problem_at(before, i) is None by {
        let s = before.services.entries()[i].1;
        if s.enabled != Some(false) && (s.service_type == ServiceType::Tcp || s.service_type
            == ServiceType::Udp) && before.allow_ports is Some && port_in(s.bind_addr@) is Some
            && port_in(s.bind_addr@) != Some(0u16) {
            let ranges = before.allow_ports.unwrap()@;
            let (p, k) = choose|p: u16, k: int|
                #![trigger text::decimal(p as nat), ranges[k]]
                (seq![':'] + text::decimal(p as nat)).is_suffix_of(s.bind_addr@) && 0 <= k
                    < ranges.len() && ranges[k].start <= p <= ranges[k].end;
            lemma_port_behind_colon(s.bind_addr@, p);
            assert(port_allowed(ranges, p));
        }
    }
    match r {
        Err(ConfigError::Service(name, problem)) => {
            let k = choose|k: int|
                0 <= k < n && #[trigger] server_problem_at(before, k) == Some(problem);
            assert(server_problem_at(before, k) is None);
        },
        _ => {},
    }
}

/// A service of an accepted server has what its type needs.
pub proof fn accepted_servers_are_usable(
    before: ServerConfig,
    after: ServerConfig,
    i: int,
    port: u16,
)
    requires
        server_checked(before, after, Ok(())),
        0 <= i < before.services.entries().len(),
        before.services.entries()[i].1.enabled != Some(false),
    ensures
        ({
            let s = before.services.entries()[i].1;
            let t = s.service_type;
            &&& s.token is Some || before.default_token is Some || (before.auth is Some
                && before.auth.unwrap().token is Some)
            &&& t == ServiceType::Tcp || t == ServiceType::Udp ==> s.bind_addr@.len() > 0
            &&& (t == ServiceType::Tcp || t == ServiceType::Udp) && port > 0
                && before.allow_ports is Some && (text::port_number(
                text::after_last(s.bind_addr@, ':'),
            ) == Some(port) || (seq![':'] + text::decimal(port as nat)).is_suffix_of(s.bind_addr@))
                ==> exists|k: int|
                0 <= k < before.allow_ports.unwrap()@.len() && (
                #[trigger] before.allow_ports.unwrap()@[k]).start <= port
                    <= before.allow_ports.unwrap()@[k].end
            &&& t == ServiceType::Http || t == ServiceType::Https ==> s.custom_domains is Some
                || s.subdomain is Some
            &&& t == ServiceType::Stcp || t == ServiceType::Sudp || t == ServiceType::Xtcp
                ==> s.secret_key is Some
            &&& s.health_check matches Some(hc) ==> hc.check_type@ == "tcp"@ || (hc.check_type@
                == "http"@ && hc.path is Some)
            &&& s.bandwidth_limit matches Some(l) ==> rate::rate_of(l@) is Ok
            &&& s.proxy_protocol_version matches Some(v) ==> v@ == "v1"@ || v@ == "v2"@
        }),
        transport_checked(before.transport, true, Ok(())),
{
    assert(server_problem_at(before, i) is None);
    let s = before.services.entries()[i].1;
    if (seq![':'] + text::decimal(port as nat)).is_suffix_of(s.bind_addr@) {
        lemma_port_behind_colon(s.bind_addr@, port);
    }
}

/// A check changes nothing but the names and the tokens of the services. The name is the one
/// under which a service stands. The token of a service that is switched on is its own, else
/// that of the authentication section, else the default; other services keep what they have.
pub proof fn server_services_are_filled_in(before: ServerConfig, after: ServerConfig, i: int)
    requires
        server_checked(before, after, Ok(())),
        0 <= i < before.services.entries().len(),
    ensures
        after == (ServerConfig { services: after.services, ..before }),
        after.services.entries().len() == before.services.entries().len(),
        ({
            let was = before.services.entries()[i];
            let is = after.services.entries()[i];
            let auth = if before.auth is Some {
                before.auth.unwrap().token
            } else {
                None
            };
            &&& is.0 == was.0
            &&& is.1 == (ServerServiceConfig { name: was.0, token: is.1.token, ..was.1 })
            &&& was.1.token is Some || was.1.enabled == Some(false) ==> is.1.token == was.1.token
            &&& was.1.token is None && was.1.enabled != Some(false) ==> is.1.token == (
            if auth is Some {
                auth
            } else {
                before.default_token
            })
        }),
{
}

/// A refusal of a server names a service that is switched on and the first thing that is wrong
/// with it: a missing token, address, domain or key, then the port, the health check, the limit
/// and the version of the proxy protocol.
pub proof fn refused_servers_are_told_why(
    before: ServerConfig,
    after: ServerConfig,
    name: String,
    p: ServiceProblem,
)
    requires
        server_checked(before, after, Err(ConfigError::Service(name, p))),
    ensures
        exists|k: int|
            0 <= k < before.services.entries().len() && (
            #[trigger] before.services.entries()[k]).0 == name && {
                let s = before.services.entries()[k].1;
                let t = s.service_type;
                let token = s.token is None && before.default_token is None && (before.auth is None
                    || before.auth.unwrap().token is None);
                let bound = t == ServiceType::Tcp || t == ServiceType::Udp;
                let web = t == ServiceType::Http || t == ServiceType::Https;
                let secret = t == ServiceType::Stcp || t == ServiceType::Sudp || t
                    == ServiceType::Xtcp;
                let address = bound && s.bind_addr@.len() == 0;
                let host = web && s.custom_domains is None && s.subdomain is None;
                let key = secret && s.secret_key is None;
                let first = token || address || host || key;
                &&& s.enabled != Some(false)
                &&& p is NoToken <==> token
                &&& p is NoBindAddr <==> !token && address
                &&& p is NoDomain <==> !token && host
                &&& p is NoSecretKey <==> !token && key
                &&& p matches ServiceProblem::PortNotAllowed(port) ==> !first && bound && port > 0
                    && text::port_number(text::after_last(s.bind_addr@, ':')) == Some(port)
                    && before.allow_ports is Some && forall|j: int|
                    0 <= j < before.allow_ports.unwrap()@.len() ==> !((
                    #[trigger] before.allow_ports.unwrap()@[j]).start <= port
                        <= before.allow_ports.unwrap()@[j].end)
                &&& p matches ServiceProblem::HealthCheckType(kind) ==> !first
                    && s.health_check is Some && s.health_check.unwrap().check_type == kind && kind@
                    != "tcp"@ && kind@ != "http"@
                &&& p is NoHealthCheckPath ==> !first && s.health_check is Some
                    && s.health_check.unwrap().check_type@ == "http"@
                    && s.health_check.unwrap().path is None
                &&& p matches ServiceProblem::BandwidthLimit(l) ==> !first && s.bandwidth_limit
                    == Some(l) && rate::rate_of(l@) is Err
                &&& p matches ServiceProblem::ProxyProtocolVersion(v) ==> !first
                    && s.proxy_protocol_version == Some(v) && v@ != "v1"@ && v@ != "v2"@
                &&& p !is NoLocalAddr
            },
{
    let k = choose|k: int|
        {
            &&& 0 <= k < before.services.entries().len()
            &&& #[trigger] server_problem_at(before, k) == Some(p)
            &&& name == before.services.entries()[k].0
        };
    let s = before.services.entries()[k].1;
    assert(before.services.entries()[k].0 == name);
    reveal_strlit("tcp");
    reveal_strlit("http");
    assert("tcp"@.len() == 3 && "http"@.len() == 4);
    match p {
        ServiceProblem::PortNotAllowed(port) => {
            let ranges = before.allow_ports.unwrap()@;
            assert forall|j: int| 0 <= j < ranges.len() implies !((#[trigger] ranges[j]).start
                <= port <= ranges[j].end) by {
                if ranges[j].start <= port <= ranges[j].end {
                    assert(port_allowed(ranges, port));
                }
            }
        },
        _ => {},
    }
}

/// A client is accepted if its transport can be used and each service that it starts has a
/// token, of its own or from the client; leads somewhere, unless it visits or is found by a
/// host; and has no limit or one that can be read. What is switched off or not in the list of
/// services to start is not looked at.
pub proof fn usable_clients_are_accepted(
    before: ClientConfig,
    after: ClientConfig,
    r: Result<(), ConfigError>,
)
    requires
        client_checked(before, after, r),
        forall|i: int|
            0 <= i < before.services.entries().len() && (
            #[trigger] before.services.entries()[i]).1.enabled != Some(false) && (
            before.start is None || exists|j: int|
                0 <= j < before.start.unwrap()@.len() && (#[trigger] before.start.unwrap()@[j])@
                    == before.services.entries()[i].0@) ==> {
                let s = before.services.entries()[i].1;
                let t = s.service_type;
                &&& s.token is Some || before.default_token is Some || (before.auth is Some
                    && before.auth.unwrap().token is Some)
                &&& s.local_addr@.len() > 0 || s.plugin is Some || t == ServiceType::Http || t
                    == ServiceType::Https || (s.server_name is Some && (t == ServiceType::Stcp || t
                    == ServiceType::Sudp || t == ServiceType::Xtcp))
                &&& s.bandwidth_limit matches Some(l) ==> rate::rate_of(l@) is Ok
            },
        before.transport.tcp.proxy matches Some(url) ==> parsed_scheme(url@) == Some("socks5"@)
            || parsed_scheme(url@) == Some("http"@),
        before.transport.transport_type == TransportType::Tls ==> before.transport.tls is Some,
    ensures
        r is Ok,
{
    let n = before.services.entries().len() as int;
    assert forall|i: int| 0 <= i < n implies #[trigger] client_problem_at(before, i) is None by {
        let e = before.services.entries()[i];
    }
    match r {
        Err(ConfigError::Service(name, problem)) => {
            let k = choose|k: int|
                0 <= k < n && #[trigger] client_problem_at(before, k) == Some(problem);
            assert(client_problem_at(before, k) is None);
        },
        _ => {},
    }
}

/// A refusal of a client names a service that is started and the first thing that is wrong with
/// it: a missing token, nowhere to lead to, or a limit that cannot be read.
pub proof fn refused_clients_are_told_why(
    before: ClientConfig,
    after: ClientConfig,
    name: String,
    p: ServiceProblem,
)
    requires
        client_checked(before, after, Err(ConfigError::Service(name, p))),
    ensures
        exists|k: int|
            0 <= k < before.services.entries().len() && (
            #[trigger] before.services.entries()[k]).0 == name && {
                let s = before.services.entries()[k].1;
                let t = s.service_type;
                let token = s.token is None && before.default_token is None && (before.auth is None
                    || before.auth.unwrap().token is None);
                let secret = t == ServiceType::Stcp || t == ServiceType::Sudp || t
                    == ServiceType::Xtcp;
                let nowhere = !(secret && s.server_name is Some) && t != ServiceType::Http && t
                    != ServiceType::Https && s.local_addr@.len() == 0 && s.plugin is None;
                &&& s.enabled != Some(false)
                &&& before.start is None || exists|j: int|
                    0 <= j < before.start.unwrap()@.len() && (
                    #[trigger] before.start.unwrap()@[j])@ == name@
                &&& p is NoToken <==> token
                &&& p is NoLocalAddr <==> !token && nowhere
                &&& !(p is NoToken || p is NoLocalAddr) ==> (p matches ServiceProblem::BandwidthLimit(
                    l,
                ) && s.bandwidth_limit == Some(l) && rate::rate_of(l@) is Err)
            },
{
    let k = choose|k: int|
        {
            &&& 0 <= k < before.services.entries().len()
            &&& #[trigger] client_problem_at(before, k) == Some(p)
            &&& name == before.services.entries()[k].0
        };
    assert(before.services.entries()[k].0 == name);
}

/// A check changes nothing but the names of the services and, of those that are started, the
/// tokens, the times before a new try and the preferred address family. The name has that of
/// the user before it, with a dot. The token is the service's own, else that of the
/// authentication section, else the default; the time is that of the client unless the service
/// has one; IPv6 is preferred if either of the two prefers it.
pub proof fn client_services_are_filled_in(before: ClientConfig, after: ClientConfig, i: int)
    requires
        client_checked(before, after, Ok(())),
        0 <= i < before.services.entries().len(),
    ensures
        after == (ClientConfig { services: after.services, ..before }),
        after.services.entries().len() == before.services.entries().len(),
        ({
            let was = before.services.entries()[i];
            let is = after.services.entries()[i];
            let started = was.1.enabled != Some(false) && (before.start is None || exists|j: int|
                0 <= j < before.start.unwrap()@.len() && (#[trigger] before.start.unwrap()@[j])@
                    == was.0@);
            let auth = if before.auth is Some {
                before.auth.unwrap().token
            } else {
                None
            };
            &&& is.0 == was.0
            &&& before.user is None ==> is.1.name@ == was.0@
            &&& before.user matches Some(u) ==> is.1.name@ == u@ + seq!['.'] + was.0@
            &&& !started ==> is.1 == (ClientServiceConfig { name: is.1.name, ..was.1 })
            &&& started ==> {
                &&& is.1 == (ClientServiceConfig {
                    name: is.1.name,
                    token: is.1.token,
                    retry_interval: is.1.retry_interval,
                    prefer_ipv6: is.1.prefer_ipv6,
                    ..was.1
                })
                &&& is.1.token == (if was.1.token is Some {
                    was.1.token
                } else if auth is Some {
                    auth
                } else {
                    before.default_token
                })
                &&& was.1.retry_interval is Some ==> is.1.retry_interval == was.1.retry_interval
                &&& was.1.retry_interval is None ==> is.1.retry_interval == Some(
                    before.retry_interval,
                )
                &&& is.1.prefer_ipv6 <==> was.1.prefer_ipv6 || before.prefer_ipv6 == Some(true)
            }
        }),
{
    reveal_strlit(".");
    assert("."@ == seq!['.']);
    assert(client_problem_at(before, i) is None);
    assert(after.services.entries()[i].0 == before.services.entries()[i].0);
}

/// A service that an accepted client starts has a token, leads somewhere or visits, and has no
/// limit that cannot be read.
pub proof fn accepted_clients_are_usable(before: ClientConfig, after: ClientConfig, i: int)
    requires
        client_checked(before, after, Ok(())),
        0 <= i < before.services.entries().len(),
        before.services.entries()[i].1.enabled != Some(false),
        before.start is None || exists|j: int|
            0 <= j < before.start.unwrap()@.len() && (#[trigger] before.start.unwrap()@[j])@
                == before.services.entries()[i].0@,
    ensures
        ({
            let s = before.services.entries()[i].1;
            let t = s.service_type;
            &&& s.token is Some || before.default_token is Some || (before.auth is Some
                && before.auth.unwrap().token is Some)
            &&& s.local_addr@.len() > 0 || s.plugin is Some || t == ServiceType::Http || t
                == ServiceType::Https || (s.server_name is Some && (t == ServiceType::Stcp || t
                == ServiceType::Sudp || t == ServiceType::Xtcp))
            &&& s.bandwidth_limit matches Some(l) ==> rate::rate_of(l@) is Ok
        }),
        transport_checked(before.transport, false, Ok(())),
{
    assert(client_problem_at(before, i) is None);
}

/// A transport is refused only where all services are in order, and for what is wrong with it.
pub proof fn transports_are_refused_last(
    server: ServerConfig,
    server_after: ServerConfig,
    client: ClientConfig,
    client_after: ClientConfig,
    p: TransportProblem,
    i: int,
)
    ensures
        server_checked(server, server_after, Err(ConfigError::Transport(p))) ==> transport_checked(
            server.transport,
            true,
            Err(p),
        ) && (0 <= i < server.services.entries().len() ==> server_problem_at(server, i) is None),
        client_checked(client, client_after, Err(ConfigError::Transport(p))) ==> transport_checked(
            client.transport,
            false,
            Err(p),
        ) && (0 <= i < client.services.entries().len() ==> client_problem_at(client, i) is None),
        !server_checked(server, server_after, Err(ConfigError::Nothing)),
        !client_checked(client, client_after, Err(ConfigError::Nothing)),
{
}

} // verus!
