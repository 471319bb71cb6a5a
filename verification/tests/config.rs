use chagle::config::{
    config_format, default_auth_method, default_client_retry_interval, default_detailed_errors,
    default_health_check_interval, default_health_check_max_failed, default_health_check_timeout,
    default_health_check_type, default_heartbeat_interval, default_heartbeat_timeout,
    default_kcp_mode, default_kcp_mtu, default_noise_pattern, default_quic_keepalive,
    default_service_type, default_tcp_mux, default_tcp_mux_keepalive, default_web_addr,
    parse_bandwidth_limit, run_mode, AuthConfig, ClientConfig, ClientPluginConfig, ClientServiceConfig,
    Config, ConfigFormat, HealthCheckConfig, KcpConfig, MaskedString, PortRange, QuicConfig,
    RunMode, ServerConfig, ServerServiceConfig, ServiceType, TcpConfig, TlsConfig, TransportConfig,
    TransportType,
};
use chagle::validate::{ConfigError, ServiceProblem, TransportProblem};

#[test]
fn test_validate_server_config() {
    let mut cfg = ServerConfig::default();

    cfg.services.insert(
        "foo1".into(),
        ServerServiceConfig {
            service_type: ServiceType::Tcp,
            name: "foo1".into(),
            bind_addr: "127.0.0.1:80".into(),
            token: None,
            ..Default::default()
        },
    );

    // Missing the token
    assert!(Config::validate_server_config(&mut cfg).is_err());

    // Use the default token
    cfg.default_token = Some("123".into());
    assert!(Config::validate_server_config(&mut cfg).is_ok());
    assert_eq!(
        cfg.services
            .get("foo1")
            .as_ref()
            .unwrap()
            .token
            .as_ref()
            .unwrap()
            .as_str(),
        "123"
    );

    // The default token won't override the service token
    cfg.services.get_mut("foo1").unwrap().token = Some("4".into());
    assert!(Config::validate_server_config(&mut cfg).is_ok());
    assert_eq!(
        cfg.services
            .get("foo1")
            .as_ref()
            .unwrap()
            .token
            .as_ref()
            .unwrap()
            .as_str(),
        "4"
    );
}

#[test]
fn test_validate_client_config() {
    let mut cfg = ClientConfig::default();

    cfg.services.insert(
        "foo1".into(),
        ClientServiceConfig {
            service_type: ServiceType::Tcp,
            name: "foo1".into(),
            local_addr: "127.0.0.1:80".into(),
            token: None,
            ..Default::default()
        },
    );

    // Missing the token
    assert!(Config::validate_client_config(&mut cfg).is_err());

    // Use the default token
    cfg.default_token = Some("123".into());
    assert!(Config::validate_client_config(&mut cfg).is_ok());
    assert_eq!(
        cfg.services
            .get("foo1")
            .as_ref()
            .unwrap()
            .token
            .as_ref()
            .unwrap()
            .as_str(),
        "123"
    );

    // The default token won't override the service token
    cfg.services.get_mut("foo1").unwrap().token = Some("4".into());
    assert!(Config::validate_client_config(&mut cfg).is_ok());
    assert_eq!(
        cfg.services
            .get("foo1")
            .as_ref()
            .unwrap()
            .token
            .as_ref()
            .unwrap()
            .as_str(),
        "4"
    );
}

#[test]
fn test_parse_bandwidth_limit() {
    assert_eq!(parse_bandwidth_limit("1MB").unwrap(), 1024 * 1024);
    assert_eq!(parse_bandwidth_limit("500KB").unwrap(), 500 * 1024);
    assert_eq!(parse_bandwidth_limit("100B").unwrap(), 100);
    assert_eq!(parse_bandwidth_limit("").unwrap(), 0);
    assert!(parse_bandwidth_limit("abc").is_err());
    assert!(parse_bandwidth_limit("1GB").is_err());
}

#[test]
fn test_port_range() {
    let r = PortRange {
        start: 8000,
        end: 9000,
    };
    assert!(r.contains(8000));
    assert!(r.contains(8500));
    assert!(r.contains(9000));
    assert!(!r.contains(7999));
    assert!(!r.contains(9001));
}

// ---------- the server ----------

fn server_with(name: &str, service: ServerServiceConfig) -> ServerConfig {
    let mut cfg = ServerConfig::default();
    cfg.default_token = Some("t".into());
    cfg.services.insert(name.to_string(), service);
    cfg
}

fn tcp_service() -> ServerServiceConfig {
    ServerServiceConfig {
        bind_addr: "0.0.0.0:8080".to_string(),
        ..Default::default()
    }
}

fn service_problem(cfg: &mut ServerConfig) -> (String, ServiceProblem, String) {
    let e = Config::validate_server_config(cfg).unwrap_err();
    let message = e.message();
    match e {
        ConfigError::Service(name, p) => (name, p, message),
        other => panic!("unexpected {:?}", other),
    }
}

#[test]
fn missing_token_is_named() {
    let mut cfg = server_with("web", tcp_service());
    cfg.default_token = None;
    let (name, p, message) = service_problem(&mut cfg);
    assert_eq!(name, "web");
    assert!(matches!(p, ServiceProblem::NoToken));
    assert_eq!(message, "The token of service web is not set");
    // The name was learned before the error was found.
    assert_eq!(cfg.services.get("web").unwrap().name, "web");
}

#[test]
fn authentication_section_goes_before_default_token() {
    let mut cfg = server_with("web", tcp_service());
    cfg.auth = Some(AuthConfig {
        method: default_auth_method(),
        token: Some("from-auth".into()),
        token_file: None,
        oidc: None,
        oidc_server: None,
    });
    assert!(Config::validate_server_config(&mut cfg).is_ok());
    let token = cfg.services.get("web").unwrap().token.as_ref().unwrap();
    assert_eq!(token.as_str(), "from-auth");
}

#[test]
fn disabled_services_are_not_checked() {
    let mut cfg = server_with(
        "off",
        ServerServiceConfig {
            enabled: Some(false),
            ..Default::default()
        },
    );
    assert!(Config::validate_server_config(&mut cfg).is_ok());
    let s = cfg.services.get("off").unwrap();
    assert_eq!(s.name, "off");
    assert!(s.token.is_none());
}

#[test]
fn tcp_service_needs_an_address() {
    let mut cfg = server_with("a", ServerServiceConfig::default());
    let (_, p, message) = service_problem(&mut cfg);
    assert!(matches!(p, ServiceProblem::NoBindAddr));
    assert_eq!(message, "Service a requires `bind_addr`");
}

#[test]
fn http_service_needs_a_host() {
    let service = ServerServiceConfig {
        service_type: ServiceType::Https,
        ..Default::default()
    };
    let mut cfg = server_with("a", service);
    let (_, p, message) = service_problem(&mut cfg);
    assert!(matches!(p, ServiceProblem::NoDomain(ServiceType::Https)));
    assert_eq!(
        message,
        "Service a of type Https requires `custom_domains` or `subdomain`"
    );
    cfg.services.get_mut("a").unwrap().subdomain = Some("x".to_string());
    assert!(Config::validate_server_config(&mut cfg).is_ok());
}

#[test]
fn secret_service_needs_a_key() {
    let service = ServerServiceConfig {
        service_type: ServiceType::Sudp,
        ..Default::default()
    };
    let mut cfg = server_with("a", service);
    let (_, p, message) = service_problem(&mut cfg);
    assert!(matches!(p, ServiceProblem::NoSecretKey(ServiceType::Sudp)));
    assert_eq!(message, "Service a of type Sudp requires `secret_key`");
}

#[test]
fn ports_are_restricted() {
    let mut cfg = server_with("a", tcp_service());
    cfg.allow_ports = Some(vec![PortRange {
        start: 9000,
        end: 9100,
    }]);
    let (_, p, message) = service_problem(&mut cfg);
    assert!(matches!(p, ServiceProblem::PortNotAllowed(8080)));
    assert_eq!(
        message,
        "Service a uses port 8080 which is not in allow_ports"
    );
    cfg.services.get_mut("a").unwrap().bind_addr = "[::]:9050".to_string();
    assert!(Config::validate_server_config(&mut cfg).is_ok());
    // What is no port number is let through, and so is port zero.
    cfg.services.get_mut("a").unwrap().bind_addr = "host:http".to_string();
    assert!(Config::validate_server_config(&mut cfg).is_ok());
    cfg.services.get_mut("a").unwrap().bind_addr = "host:0".to_string();
    assert!(Config::validate_server_config(&mut cfg).is_ok());
}

fn health_check(kind: &str, path: Option<&str>) -> HealthCheckConfig {
    HealthCheckConfig {
        check_type: kind.to_string(),
        path: path.map(|p| p.to_string()),
        interval_seconds: default_health_check_interval(),
        timeout_seconds: default_health_check_timeout(),
        max_failed: default_health_check_max_failed(),
        http_headers: None,
    }
}

#[test]
fn health_checks_are_checked() {
    let mut service = tcp_service();
    service.health_check = Some(health_check("icmp", None));
    let mut cfg = server_with("a", service);
    let (_, p, message) = service_problem(&mut cfg);
    assert!(matches!(p, ServiceProblem::HealthCheckType(t) if t == "icmp"));
    assert_eq!(
        message,
        "Service a health_check.type must be 'tcp' or 'http', got 'icmp'"
    );
    cfg.services.get_mut("a").unwrap().health_check = Some(health_check("http", None));
    let (_, p, message) = service_problem(&mut cfg);
    assert!(matches!(p, ServiceProblem::NoHealthCheckPath));
    assert_eq!(message, "Service a HTTP health_check requires `path`");
    cfg.services.get_mut("a").unwrap().health_check = Some(health_check("http", Some("/up")));
    assert!(Config::validate_server_config(&mut cfg).is_ok());
}

#[test]
fn limits_and_versions_are_checked() {
    let mut service = tcp_service();
    service.bandwidth_limit = Some("fast".to_string());
    service.proxy_protocol_version = Some("v3".to_string());
    let mut cfg = server_with("a", service);
    let (_, p, message) = service_problem(&mut cfg);
    assert_eq!(p.cause().unwrap().message(), "Invalid bandwidth unit. Use MB, KB, or B");
    assert!(matches!(p, ServiceProblem::BandwidthLimit(l) if l == "fast"));
    cfg.services.get_mut("a").unwrap().bandwidth_limit = Some("1GB".to_string());
    let e = Config::validate_server_config(&mut cfg).unwrap_err();
    let cause = e.cause().unwrap();
    assert_eq!(cause.message(), "Invalid bandwidth number: 1G");
    assert_eq!(cause.cause().unwrap().message(), "invalid float literal");
    assert_eq!(message, "Service a has invalid bandwidth_limit 'fast'");
    cfg.services.get_mut("a").unwrap().bandwidth_limit = Some("1.5 MB".to_string());
    let (_, p, message) = service_problem(&mut cfg);
    assert!(p.cause().is_none());
    assert!(matches!(p, ServiceProblem::ProxyProtocolVersion(v) if v == "v3"));
    assert_eq!(
        message,
        "Service a proxy_protocol_version must be 'v1' or 'v2', got 'v3'"
    );
    cfg.services.get_mut("a").unwrap().proxy_protocol_version = Some("v2".to_string());
    assert!(Config::validate_server_config(&mut cfg).is_ok());
}

#[test]
fn first_wrong_service_is_reported() {
    let mut cfg = server_with("one", tcp_service());
    cfg.services
        .insert("two".to_string(), ServerServiceConfig::default());
    cfg.services.insert("three".to_string(), tcp_service());
    let (name, _, _) = service_problem(&mut cfg);
    assert_eq!(name, "two");
    assert!(cfg.services.get("one").unwrap().token.is_some());
    assert!(cfg.services.get("three").unwrap().token.is_none());
}

#[test]
fn valid_server_is_left_alone() {
    let mut cfg = server_with("one", tcp_service());
    assert!(Config::validate_server_config(&mut cfg).is_ok());
    cfg.default_token = Some("another".into());
    assert!(Config::validate_server_config(&mut cfg).is_ok());
    let token = cfg.services.get("one").unwrap().token.as_ref().unwrap();
    assert_eq!(token.as_str(), "t");
}

// ---------- the client ----------

fn client_with(name: &str, service: ClientServiceConfig) -> ClientConfig {
    let mut cfg = ClientConfig::default();
    cfg.default_token = Some("t".into());
    cfg.retry_interval = default_client_retry_interval();
    cfg.services.insert(name.to_string(), service);
    cfg
}

fn local_service() -> ClientServiceConfig {
    ClientServiceConfig {
        local_addr: "127.0.0.1:22".to_string(),
        ..Default::default()
    }
}

#[test]
fn client_services_learn_from_the_client() {
    let mut cfg = client_with("ssh", local_service());
    cfg.user = Some("me".to_string());
    cfg.prefer_ipv6 = Some(true);
    assert!(Config::validate_client_config(&mut cfg).is_ok());
    let s = cfg.services.get("ssh").unwrap();
    assert_eq!(s.name, "me.ssh");
    assert_eq!(s.retry_interval, Some(1));
    assert!(s.prefer_ipv6);
    assert_eq!(s.token.as_ref().unwrap().as_str(), "t");
}

#[test]
fn client_services_keep_what_is_theirs() {
    let mut service = local_service();
    service.retry_interval = Some(7);
    service.prefer_ipv6 = true;
    let mut cfg = client_with("ssh", service);
    cfg.prefer_ipv6 = Some(false);
    assert!(Config::validate_client_config(&mut cfg).is_ok());
    let s = cfg.services.get("ssh").unwrap();
    assert_eq!(s.name, "ssh");
    assert_eq!(s.retry_interval, Some(7));
    assert!(s.prefer_ipv6);
}

#[test]
fn only_listed_services_are_checked() {
    let mut cfg = client_with("ssh", ClientServiceConfig::default());
    cfg.start = Some(vec!["web".to_string()]);
    assert!(Config::validate_client_config(&mut cfg).is_ok());
    assert!(cfg.services.get("ssh").unwrap().token.is_none());
    cfg.start = Some(vec!["web".to_string(), "ssh".to_string()]);
    let e = Config::validate_client_config(&mut cfg).unwrap_err();
    assert_eq!(e.message(), "Service ssh requires `local_addr` or `plugin`");
}

#[test]
fn visitors_and_plugins_need_no_local_address() {
    let visitor = ClientServiceConfig {
        service_type: ServiceType::Stcp,
        server_name: Some("db".to_string()),
        ..Default::default()
    };
    assert!(visitor.is_visitor());
    let mut cfg = client_with("db-visitor", visitor);
    cfg.services.insert(
        "proxy".to_string(),
        ClientServiceConfig {
            plugin: Some(ClientPluginConfig {
                plugin_type: "socks5".to_string(),
                local_addr: None,
                host_header_rewrite: None,
                http_user: None,
                http_password: None,
                local_path: None,
                strip_prefix: None,
                enable_http2: false,
                unix_path: None,
                crt_path: None,
                key_path: None,
            }),
            ..Default::default()
        },
    );
    cfg.services.insert(
        "site".to_string(),
        ClientServiceConfig {
            service_type: ServiceType::Http,
            ..Default::default()
        },
    );
    assert!(Config::validate_client_config(&mut cfg).is_ok());
}

#[test]
fn client_limits_are_checked() {
    let mut service = local_service();
    service.bandwidth_limit = Some("1TB".to_string());
    let mut cfg = client_with("ssh", service);
    let e = Config::validate_client_config(&mut cfg).unwrap_err();
    assert_eq!(e.message(), "Service ssh has invalid bandwidth_limit '1TB'");
}

// ---------- transports ----------

fn transport(t: TransportType) -> TransportConfig {
    TransportConfig {
        transport_type: t,
        ..Default::default()
    }
}

fn tls(pkcs12: Option<&str>, password: Option<&str>) -> TlsConfig {
    TlsConfig {
        hostname: None,
        trusted_root: None,
        pkcs12: pkcs12.map(|p| p.to_string()),
        pkcs12_password: password.map(|p| MaskedString::from(p)),
        cert_file: None,
        key_file: None,
        force: false,
    }
}

#[test]
fn plain_transports_need_nothing() {
    for t in [
        TransportType::Tcp,
        TransportType::Noise,
        TransportType::Websocket,
        TransportType::Kcp,
    ] {
        assert!(Config::validate_transport_config(&transport(t), true).is_ok());
        assert!(Config::validate_transport_config(&transport(t), false).is_ok());
    }
    assert!(Config::validate_transport_config(&transport(TransportType::Quic), false).is_ok());
}

#[test]
fn tls_server_needs_its_certificate() {
    let mut t = transport(TransportType::Tls);
    let e = Config::validate_transport_config(&t, false).unwrap_err();
    assert_eq!(e.message(), "Missing TLS configuration");
    t.tls = Some(tls(Some("id.p12"), None));
    assert!(Config::validate_transport_config(&t, false).is_ok());
    let e = Config::validate_transport_config(&t, true).unwrap_err();
    assert_eq!(e.message(), "Missing `pkcs12` or `pkcs12_password`");
    t.tls = Some(tls(Some("id.p12"), Some("pw")));
    assert!(Config::validate_transport_config(&t, true).is_ok());
}

#[test]
fn quic_server_needs_its_certificate() {
    let mut t = transport(TransportType::Quic);
    let e = Config::validate_transport_config(&t, true).unwrap_err();
    assert_eq!(e.message(), "QUIC transport requires TLS configuration");
    t.tls = Some(tls(None, Some("pw")));
    let e = Config::validate_transport_config(&t, true).unwrap_err();
    assert_eq!(
        e.message(),
        "QUIC transport requires `pkcs12` and `pkcs12_password`"
    );
}

#[test]
fn proxies_are_checked_by_their_scheme() {
    let mut t = transport(TransportType::Tcp);
    t.tcp.proxy = Some("SOCKS5://127.0.0.1:1080".to_string());
    assert!(Config::validate_transport_config(&t, false).is_ok());
    t.tcp.proxy = Some("http://proxy.example.com:3128".to_string());
    assert!(Config::validate_transport_config(&t, false).is_ok());
    t.tcp.proxy = Some("https://proxy.example.com".to_string());
    let e = Config::validate_transport_config(&t, false).unwrap_err();
    assert!(matches!(&e, TransportProblem::UnknownProxyScheme(s) if s == "https"));
    assert_eq!(e.message(), "Unknown proxy scheme: https");
    t.tcp.proxy = Some("no url".to_string());
    let e = Config::validate_transport_config(&t, false).unwrap_err();
    assert!(matches!(&e, TransportProblem::InvalidProxyUrl(u) if u == "no url"));
    assert_eq!(e.message(), "Invalid proxy URL: no url");
}

#[test]
fn wrong_transport_comes_after_the_services() {
    let mut cfg = server_with("one", tcp_service());
    cfg.transport = transport(TransportType::Tls);
    let e = Config::validate_server_config(&mut cfg).unwrap_err();
    assert!(matches!(e, ConfigError::Transport(TransportProblem::NoTls)));
    assert!(cfg.services.get("one").unwrap().token.is_some());
}

// ---------- the whole configuration ----------

#[test]
fn there_must_be_a_side() {
    let mut cfg = Config {
        server: None,
        client: None,
    };
    let e = cfg.validate().unwrap_err();
    assert!(matches!(e, ConfigError::Nothing));
    assert_eq!(
        e.message(),
        "Neither of `[server]` or `[client]` is defined"
    );
}

#[test]
fn both_sides_are_checked() {
    let mut cfg = Config {
        server: Some(server_with("one", tcp_service())),
        client: Some(client_with("ssh", ClientServiceConfig::default())),
    };
    let e = cfg.validate().unwrap_err();
    assert_eq!(e.message(), "Service ssh requires `local_addr` or `plugin`");
    cfg.client = None;
    assert!(cfg.validate().is_ok());
}

#[test]
fn formats_go_by_extension() {
    assert_eq!(config_format(Some("yaml")), ConfigFormat::Yaml);
    assert_eq!(config_format(Some("yml")), ConfigFormat::Yaml);
    assert_eq!(config_format(Some("json")), ConfigFormat::Json);
    assert_eq!(config_format(Some("toml")), ConfigFormat::Toml);
    assert_eq!(config_format(Some("conf")), ConfigFormat::Toml);
    assert_eq!(config_format(None), ConfigFormat::Toml);
}

#[test]
fn defaults() {
    assert_eq!(default_service_type(), ServiceType::Tcp);
    assert_eq!(default_health_check_type(), "tcp");
    assert_eq!(default_health_check_interval(), 10);
    assert_eq!(default_health_check_timeout(), 3);
    assert_eq!(default_health_check_max_failed(), 3);
    assert_eq!(default_web_addr(), "127.0.0.1");
    assert_eq!(default_kcp_mode(), "fast");
    assert_eq!(default_kcp_mtu(), 1350);
    assert_eq!(default_quic_keepalive(), 10);
    assert_eq!(default_auth_method(), "token");
    assert_eq!(default_noise_pattern(), "Noise_NK_25519_ChaChaPoly_BLAKE2s");
    assert!(default_tcp_mux());
    assert_eq!(default_tcp_mux_keepalive(), 30);
    assert_eq!(default_heartbeat_timeout(), 40);
    assert_eq!(default_heartbeat_interval(), 30);
    assert!(default_detailed_errors());
    assert_eq!(KcpConfig::default().sndwnd, 1024);
    assert_eq!(QuicConfig::default().max_incoming_streams, 100);
    assert!(TcpConfig::default().nodelay);
}

#[test]
fn pools_go_by_service_type() {
    let mut s = ServerServiceConfig::with_name("a");
    assert_eq!(s.name, "a");
    assert!(s.needs_bind_addr());
    assert_eq!(s.pool_size(), 8);
    s.service_type = ServiceType::Udp;
    assert!(s.needs_bind_addr());
    assert_eq!(s.pool_size(), 2);
    s.service_type = ServiceType::Xtcp;
    assert!(!s.needs_bind_addr());
    assert_eq!(s.pool_size(), 1);
    s.pool_count = Some(0);
    assert_eq!(s.pool_size(), 0);
}

#[test]
fn secrets_are_masked() {
    let m = MaskedString::from("hunter2");
    assert_eq!(m.as_str(), "hunter2");
    assert_eq!(&*m, "hunter2");
    assert_eq!(m.shown(), "MASKED");
    assert!(m.clone() == m);
    assert_eq!(MaskedString::default().as_str(), "");
}

#[test]
fn side_is_determined() {
    let mut cfg = Config {
        server: Some(ServerConfig::default()),
        client: None,
    };
    assert_eq!(run_mode(&cfg, false, false), RunMode::Server);
    assert_eq!(run_mode(&cfg, false, true), RunMode::Client);
    cfg.client = Some(ClientConfig::default());
    assert_eq!(run_mode(&cfg, false, false), RunMode::Undetermined);
    assert_eq!(run_mode(&cfg, true, false), RunMode::Server);
    cfg.server = None;
    assert_eq!(run_mode(&cfg, false, false), RunMode::Client);
}
