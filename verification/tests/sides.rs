use chagle::channels::ChannelTable;
use chagle::client::{
    answer_hello, answer_visitor_hello, check_ack, check_visitor_ack, client_part, control_step,
    forward_mode, forwarder_step, heartbeat_limit, plan_start, plan_visitor, retry_step, start_action,
    ClientChannels, ConnectError, ControlAction, ControlEvent, ForwardMode, ForwarderAction,
    ForwarderEvent, PacketAction, ReloadStep,
    RetryStep, StartAction, UdpSessions,
};
use chagle::config::{
    ClientConfig, ClientServiceChange, ClientServiceConfig, Config, ConfigChange, ServerConfig,
    ServerServiceChange, ServerServiceConfig, ServiceType, TransportType, WebServerConfig,
};
use chagle::handshake::{Greeting, HandshakeError, Visit};
use chagle::http_proxy::{parse_http_request, HttpParseError};
use chagle::protocol::{
    auth_digest, digest_text, digests_equal, fresh_nonce, service_digest, Ack, ControlChannelCmd,
    DataChannelCmd, Digest, Hello,
};
use chagle::proxy_protocol::SocketAddress;
use chagle::server::{
    accept_step, channel_step, choose_transport, forward_step, plan_channel, plan_listeners,
    pool_step, server_part, visitor_step, AcceptOutcome, AcceptStep, ChannelAction, ChannelEvent,
    Features, ForwardStep, PoolAction, PoolEvent, PoolPlan, PoolState, ServerState, VhostAction,
    VisitorOutcome,
};

// ---------- digests ----------

#[test]
fn digests_are_sha256() {
    assert_eq!(
        digest_text(&service_digest("abc")),
        "ba7816bf8f01cfea414140de5dae2223b00361a396177a9cb410ff61f20015ad"
    );
    assert_eq!(
        digest_text(&service_digest("")),
        "e3b0c44298fc1c149afbf4c8996fb92427ae41e4649b934ca495991b7852b855"
    );
    let mut nonce: Digest = [0; 32];
    assert!(!digests_equal(&auth_digest("t", &nonce), &service_digest("t")));
    let zero = auth_digest("t", &nonce);
    nonce[31] = 1;
    assert!(!digests_equal(&auth_digest("t", &nonce), &zero));
}

#[test]
fn nonces_differ() {
    assert!(!digests_equal(&fresh_nonce(), &fresh_nonce()));
}

// ---------- channels ----------

#[test]
fn channels_are_found_by_both_keys() {
    let mut t = ChannelTable::new();
    assert!(t.insert([1; 32], [11; 32], 7));
    assert!(t.insert([2; 32], [12; 32], 8));
    assert_eq!(t.get1(&[1; 32]), Some(7));
    assert_eq!(t.get2(&[12; 32]), Some(8));
    assert_eq!(t.get1(&[11; 32]), None);
    assert!(!t.insert([1; 32], [13; 32], 9));
    assert!(!t.insert([3; 32], [11; 32], 9));
    assert_eq!(t.remove1(&[1; 32]), Some(7));
    assert_eq!(t.get2(&[11; 32]), None);
    assert_eq!(t.remove1(&[1; 32]), None);
    assert_eq!(t.get1(&[2; 32]), Some(8));
}

// ---------- the server ----------

fn web(name: &str) -> ServerServiceConfig {
    ServerServiceConfig {
        service_type: ServiceType::Http,
        custom_domains: Some(vec![format!("{}.test", name)]),
        token: Some("t".into()),
        ..ServerServiceConfig::with_name(name)
    }
}

fn config() -> ServerConfig {
    let mut c = ServerConfig::default();
    c.subdomain_host = Some("test".to_string());
    c.services.insert("web".to_string(), web("web"));
    let mut off = web("off");
    off.enabled = Some(false);
    c.services.insert("off".to_string(), off);
    let mut secret = ServerServiceConfig::with_name("db");
    secret.service_type = ServiceType::Stcp;
    secret.token = Some("t".into());
    secret.secret_key = Some("key".into());
    c.services.insert("db".to_string(), secret);
    c
}

fn get(host: &str) -> Vec<u8> {
    format!("GET / HTTP/1.1\r\nHost: {}\r\n\r\n", host).into_bytes()
}

#[test]
fn services_are_found_by_digest() {
    let state = ServerState::new(config());
    assert!(Greeting::new(service_digest("web")).sent(&state).is_ok());
    for name in ["off", "nothing"] {
        let digest = service_digest(name);
        let e = Greeting::new(digest).sent(&state).err().unwrap();
        assert!(matches!(&e, HandshakeError::NoService(_)));
        assert_eq!(e.ack(), Some(Ack::ServiceNotExist));
        assert_eq!(
            e.message(),
            format!("No such a service {}", digest_text(&digest))
        );
    }
}

#[test]
fn services_of_a_valid_server_can_be_joined() {
    let mut c = ServerConfig::default();
    c.default_token = Some("t".into());
    let mut a = ServerServiceConfig::with_name("");
    a.bind_addr = "h:1".to_string();
    c.services.insert("a".to_string(), a);
    assert!(Config::validate_server_config(&mut c).is_ok());
    let mut state = ServerState::new(c);
    let greeting = Greeting::with_nonce(service_digest("a"), [7; 32]);
    let sent = answer_hello(&client("t"), &Hello::ControlChannelHello(1, [7; 32])).unwrap();
    let proving = greeting.sent(&state).ok().unwrap();
    assert!(proving.check(&mut state, &sent).is_ok());
}

fn client(token: &str) -> ClientServiceConfig {
    let mut s = ClientServiceConfig::with_name("web");
    s.token = Some(token.into());
    s
}

#[test]
fn client_is_let_in_with_its_token() {
    let mut state = ServerState::new(config());
    let digest = service_digest("web");
    let mut dropped_before = None;
    for handle in [1, 2] {
        let greeting = Greeting::new(digest);
        let hello = Hello::ControlChannelHello(1, greeting.challenge());
        let sent = answer_hello(&client("t"), &hello).unwrap();
        let proving = greeting.sent(&state).ok().unwrap();
        let (admitted, dropped) = proving.check(&mut state, &sent).ok().unwrap();
        // A second client takes the place of the first.
        assert_eq!(dropped, dropped_before);
        assert_eq!(state.channels.get1(&digest), None);
        assert!(admitted.install(&mut state, handle));
        assert_eq!(state.channels.get1(&digest), Some(handle));
        // Both sides hold the same session key.
        assert_eq!(state.channels.get2(&sent), Some(handle));
        dropped_before = Some(handle);
    }
}

#[test]
fn client_is_refused_with_another_token() {
    let mut state = ServerState::new(config());
    let digest = service_digest("web");
    assert!(state.channels.insert(digest, [3; 32], 9));
    let greeting = Greeting::with_nonce(digest, [7; 32]);
    let hello = Hello::ControlChannelHello(1, [7; 32]);
    let sent = answer_hello(&client("x"), &hello).unwrap();
    let e = greeting
        .sent(&state)
        .ok()
        .unwrap()
        .check(&mut state, &sent)
        .err()
        .unwrap();
    assert!(matches!(&e, HandshakeError::AuthFailed(n) if n == "web"));
    assert_eq!(e.ack(), Some(Ack::AuthFailed));
    assert_eq!(e.message(), "Service web failed the authentication");
    // The client that was there stays.
    assert_eq!(state.channels.get1(&digest), Some(9));
}

#[test]
fn visitors_are_checked() {
    let mut state = ServerState::new(config());
    let digest = service_digest("db");
    let e = Visit::new(&state, &service_digest("nothing")).err().unwrap();
    assert!(matches!(e, HandshakeError::NoServiceForVisitor));
    assert_eq!(e.message(), "No such service for visitor");
    assert_eq!(e.ack(), Some(Ack::ServiceNotExist));
    let e = Visit::new(&state, &service_digest("web")).err().unwrap();
    assert!(matches!(&e, HandshakeError::NotSecret(n) if n == "web"));
    assert_eq!(e.message(), "Service web is not a secret type");
    assert_eq!(e.ack(), Some(Ack::ServiceNotExist));
    let nonce: Digest = [4; 32];
    let sent = answer_visitor_hello(Some("key"), &Hello::ControlChannelHello(1, nonce)).unwrap();
    let visit = Visit::with_nonce(&state, &digest, nonce).ok().unwrap();
    assert_eq!(visit.challenge(), nonce);
    let e = visit.check(&state, &nonce).err().unwrap();
    assert!(matches!(&e, HandshakeError::SecretKeyMismatch(n) if n == "db"));
    assert_eq!(e.message(), "Visitor secret key mismatch for service db");
    assert_eq!(e.ack(), Some(Ack::SecretKeyMismatch));
    let visit = Visit::with_nonce(&state, &digest, nonce).ok().unwrap();
    let e = visit.check(&state, &sent).err().unwrap();
    assert!(matches!(&e, HandshakeError::NoClient(n) if n == "db"));
    assert_eq!(e.message(), "No client connected for service db");
    assert_eq!(e.ack(), Some(Ack::ServiceNotReady));
    assert!(state.channels.insert(digest, [5; 32], 3));
    let visit = Visit::with_nonce(&state, &digest, nonce).ok().unwrap();
    assert_eq!(visit.check(&state, &sent).ok(), Some(3));
}

#[test]
fn secret_service_without_key() {
    let mut c = config();
    c.services.get_mut("db").unwrap().secret_key = None;
    let state = ServerState::new(c);
    let e = Visit::new(&state, &service_digest("db")).err().unwrap();
    assert!(matches!(&e, HandshakeError::NoSecretKey(n) if n == "db"));
    assert_eq!(e.message(), "Service db has no secret_key");
    assert_eq!(e.ack(), None);
}

#[test]
fn requests_are_routed() {
    let mut c = config();
    c.services.get_mut("web").unwrap().http_user = Some("u".to_string());
    c.services.get_mut("web").unwrap().http_password = Some("p".into());
    let mut state = ServerState::new(c);
    assert!(matches!(state.vhost_request(&get("no.test")), Ok(VhostAction::NotFound)));
    assert!(matches!(state.vhost_request(&get("off.test")), Ok(VhostAction::NotFound)));
    assert!(matches!(state.vhost_request(&get("web.test")), Ok(VhostAction::Unauthorized)));
    let e = state.vhost_request(b"nonsense").unwrap_err();
    assert!(matches!(e, HttpParseError::Incomplete));
    let e = state.vhost_request(b"\x00").unwrap_err();
    assert!(matches!(e, HttpParseError::Malformed(_)));
    let good = b"GET / HTTP/1.1\r\nHost: web.test:80\r\nAuthorization: Basic dTpw\r\n\r\n";
    let info = parse_http_request(good).unwrap();
    assert!(matches!(state.vhost_action(&info), VhostAction::BadGateway));
    state.channels.insert(service_digest("web"), [1; 32], 4);
    match state.vhost_action(&info) {
        VhostAction::Forward(handle, name) => {
            assert_eq!(handle, 4);
            assert_eq!(name, "web");
        }
        other => panic!("unexpected {:?}", other),
    }
}

#[test]
fn services_come_and_go() {
    let mut state = ServerState::new(config());
    state.channels.insert(service_digest("web"), [1; 32], 4);
    let mut changed = web("web");
    changed.custom_domains = Some(vec!["new.test".to_string()]);
    let change = ConfigChange::Server(ServerServiceChange::Add(changed));
    assert_eq!(state.handle_hot_reload(change), Some(4));
    assert_eq!(state.channels.get2(&[1; 32]), None);
    assert!(matches!(state.vhost_request(&get("web.test")), Ok(VhostAction::NotFound)));
    assert!(matches!(state.vhost_request(&get("new.test")), Ok(VhostAction::BadGateway)));
    let change = ConfigChange::Client(ClientServiceChange::Delete("web".to_string()));
    assert_eq!(state.handle_hot_reload(change), None);
    assert!(matches!(state.vhost_request(&get("new.test")), Ok(VhostAction::BadGateway)));
    let change = ConfigChange::Server(ServerServiceChange::Delete("web".to_string()));
    assert_eq!(state.handle_hot_reload(change), None);
    assert!(matches!(state.vhost_request(&get("new.test")), Ok(VhostAction::NotFound)));
    assert!(Greeting::new(service_digest("web")).sent(&state).is_err());
}

#[test]
fn channels_are_planned() {
    let mut s = ServerServiceConfig::with_name("a");
    let p = plan_channel(&s, 30);
    assert_eq!((p.requests, p.pool, p.heartbeat), (8, PoolPlan::Tcp, Some(30)));
    s.service_type = ServiceType::Udp;
    let p = plan_channel(&s, 0);
    assert_eq!((p.requests, p.pool, p.heartbeat), (2, PoolPlan::Udp, None));
    for t in [ServiceType::Http, ServiceType::Https, ServiceType::Sudp] {
        s.service_type = t;
        s.bind_addr = String::new();
        assert_eq!(plan_channel(&s, 0).pool, PoolPlan::Hold);
        s.bind_addr = "h:1".to_string();
        assert!(plan_channel(&s, 0).pool != PoolPlan::Hold);
    }
    for t in [ServiceType::Stcp, ServiceType::Xtcp] {
        s.service_type = t;
        assert_eq!(plan_channel(&s, 0).pool, PoolPlan::Hold);
    }
}

#[test]
fn control_channel_of_the_server() {
    assert_eq!(
        channel_step(ChannelEvent::DataRequested),
        ChannelAction::Send(ControlChannelCmd::CreateDataChannel)
    );
    assert_eq!(
        channel_step(ChannelEvent::HeartbeatDue),
        ChannelAction::Send(ControlChannelCmd::HeartBeat)
    );
    assert_eq!(channel_step(ChannelEvent::RequestsClosed), ChannelAction::Stop);
    assert_eq!(channel_step(ChannelEvent::Shutdown), ChannelAction::Stop);
    assert_eq!(channel_step(ChannelEvent::WriteFailed), ChannelAction::Stop);
}

#[test]
fn accepting() {
    assert_eq!(accept_step(AcceptOutcome::Accepted), AcceptStep::Serve);
    assert_eq!(accept_step(AcceptOutcome::IoError(true)), AcceptStep::Wait);
    assert_eq!(accept_step(AcceptOutcome::IoError(false)), AcceptStep::Stop);
    assert_eq!(accept_step(AcceptOutcome::OtherError), AcceptStep::Again);
    assert_eq!(visitor_step(VisitorOutcome::Accepted(true)), AcceptStep::Serve);
    assert_eq!(visitor_step(VisitorOutcome::Accepted(false)), AcceptStep::Stop);
    assert_eq!(visitor_step(VisitorOutcome::Failed(true)), AcceptStep::Wait);
    assert_eq!(visitor_step(VisitorOutcome::Failed(false)), AcceptStep::Stop);
    assert_eq!(forward_step(true), ForwardStep::Done);
    assert_eq!(forward_step(false), ForwardStep::BadGateway);
}

#[test]
fn pool_joins_each_visitor() {
    let events = [
        (PoolEvent::Visitor, PoolAction::AwaitChannel),
        (PoolEvent::Channel, PoolAction::Start(DataChannelCmd::StartForwardTcp)),
        (PoolEvent::Written(false), PoolAction::Request),
        (PoolEvent::Requested(true), PoolAction::AwaitChannel),
        (PoolEvent::Channel, PoolAction::Start(DataChannelCmd::StartForwardTcp)),
        (PoolEvent::Written(true), PoolAction::Join),
        (PoolEvent::Visitor, PoolAction::AwaitChannel),
        (PoolEvent::NoChannels, PoolAction::Stop),
        (PoolEvent::Visitor, PoolAction::Stop),
    ];
    let mut state = PoolState::Idle;
    for (event, expected) in events {
        let (next, action) = pool_step(state, event);
        assert_eq!(action, expected);
        state = next;
    }
    assert_eq!(state, PoolState::Stopped);
    assert_eq!(pool_step(PoolState::Idle, PoolEvent::NoVisitors).1, PoolAction::Stop);
    assert_eq!(
        pool_step(PoolState::Replacing, PoolEvent::Requested(false)).1,
        PoolAction::Stop
    );
}

#[test]
fn transports_need_their_feature() {
    let none = Features { tls: false, noise: false, websocket: false };
    let all = Features { tls: true, noise: true, websocket: true };
    assert_eq!(choose_transport(TransportType::Tcp, &none), Ok(TransportType::Tcp));
    for t in [TransportType::Tls, TransportType::Noise, TransportType::Websocket] {
        assert_eq!(choose_transport(t, &none), Err(t));
        assert_eq!(choose_transport(t, &all), Ok(t));
    }
    for t in [TransportType::Kcp, TransportType::Quic] {
        assert_eq!(choose_transport(t, &all), Err(t));
    }
}

#[test]
fn missing_sides() {
    let e = server_part(Config { server: None, client: None }).err().unwrap();
    assert_eq!(
        e,
        "Try to run as a server, but the configuration is missing. Please add the `[server]` block"
    );
    let e = client_part(Config { server: None, client: None }).err().unwrap();
    assert_eq!(
        e,
        "Try to run as a client, but the configuration is missing. Please add the `[client]` block"
    );
    let both = Config {
        server: Some(ServerConfig::default()),
        client: Some(ClientConfig::default()),
    };
    assert!(server_part(both).is_ok());
}

#[test]
fn listeners_are_planned() {
    let mut c = ServerConfig::default();
    let p = plan_listeners(&c);
    assert!(p.dashboard.is_none());
    assert!(p.vhost_http.is_none());
    c.vhost_http_port = Some(8080);
    c.web_server = Some(WebServerConfig {
        addr: "127.0.0.1".to_string(),
        port: 7500,
        user: None,
        password: None,
        tls_cert_file: None,
        tls_key_file: None,
    });
    let p = plan_listeners(&c);
    assert_eq!(p.dashboard.as_deref(), Some("127.0.0.1:7500"));
    assert_eq!(p.vhost_http.as_deref(), Some("0.0.0.0:8080"));
}

// ---------- the client ----------

#[test]
fn services_are_started() {
    let mut c = ClientConfig::default();
    let mut off = ClientServiceConfig::with_name("off");
    off.enabled = Some(false);
    c.services.insert("off".to_string(), off);
    c.services.insert("ssh".to_string(), ClientServiceConfig::with_name("ssh"));
    let mut visitor = ClientServiceConfig::with_name("v");
    visitor.service_type = ServiceType::Xtcp;
    visitor.server_name = Some("db".to_string());
    c.services.insert("v".to_string(), visitor);
    assert_eq!(
        plan_start(&c),
        vec![StartAction::Disabled, StartAction::Provide, StartAction::Visit]
    );
    c.start = Some(vec!["v".to_string(), "off".to_string()]);
    assert_eq!(
        plan_start(&c),
        vec![StartAction::Disabled, StartAction::NotListed, StartAction::Visit]
    );
    assert_eq!(start_action(&c, 2), StartAction::Visit);
}

#[test]
fn client_channels_are_replaced() {
    let mut t = ClientChannels::new();
    assert_eq!(t.insert("a".to_string(), 1), None);
    let mut s = ClientServiceConfig::with_name("a");
    let add = |s: &ClientServiceConfig| ConfigChange::Client(ClientServiceChange::Add(s.clone()));
    assert_eq!(t.handle_hot_reload(&add(&s), 2), ReloadStep::Open(Some(1)));
    s.enabled = Some(false);
    assert_eq!(t.handle_hot_reload(&add(&s), 3), ReloadStep::Nothing);
    let delete = ConfigChange::Client(ClientServiceChange::Delete("a".to_string()));
    assert_eq!(t.handle_hot_reload(&delete, 3), ReloadStep::Close(Some(2)));
    assert_eq!(t.handle_hot_reload(&delete, 3), ReloadStep::Close(None));
    s.enabled = Some(true);
    assert_eq!(t.handle_hot_reload(&add(&s), 4), ReloadStep::Open(None));
    let other = ConfigChange::Server(ServerServiceChange::Delete("a".to_string()));
    assert_eq!(t.handle_hot_reload(&other, 5), ReloadStep::Nothing);
    assert_eq!(t.remove("a"), Some(4));
}

#[test]
fn server_must_answer_with_a_nonce() {
    let s = ClientServiceConfig::with_name("a");
    let e = answer_hello(&s, &Hello::DataChannelHello(1, [0; 32])).unwrap_err();
    assert!(matches!(e, ConnectError::UnexpectedHello));
    assert_eq!(e.message(), "Unexpected type of hello");
    let e = answer_visitor_hello(Some("k"), &Hello::VisitorHello(1, [0; 32])).unwrap_err();
    assert_eq!(e.message(), "Unexpected response from server");
    let e = answer_visitor_hello(None, &Hello::ControlChannelHello(1, [0; 32])).unwrap_err();
    assert_eq!(e.message(), "No secret_key configured for visitor");
}

#[test]
fn acks_are_checked() {
    let s = ClientServiceConfig::with_name("a");
    assert!(check_ack(&s, Ack::Accepted).is_ok());
    let e = check_ack(&s, Ack::AuthFailed).unwrap_err();
    assert!(matches!(&e, ConnectError::AuthFailed(n, Ack::AuthFailed) if n == "a"));
    assert_eq!(e.message(), "Authentication failed: a");
    assert!(check_visitor_ack(Ack::Accepted).is_ok());
    let e = check_visitor_ack(Ack::ServiceNotReady).unwrap_err();
    assert!(matches!(e, ConnectError::VisitorRefused(Ack::ServiceNotReady)));
    assert_eq!(e.message(), "Visitor authentication failed");
    assert_eq!(ConnectError::HeartbeatTimeout.message(), "Heartbeat timed out");
}

#[test]
fn control_channel_of_the_client() {
    assert_eq!(
        control_step(ControlEvent::Command(ControlChannelCmd::CreateDataChannel)),
        ControlAction::OpenDataChannel
    );
    assert_eq!(
        control_step(ControlEvent::Command(ControlChannelCmd::HeartBeat)),
        ControlAction::Wait
    );
    assert_eq!(control_step(ControlEvent::Timeout), ControlAction::Fail);
    assert_eq!(control_step(ControlEvent::Shutdown), ControlAction::Stop);
    assert_eq!(heartbeat_limit(0), None);
    assert_eq!(heartbeat_limit(40), Some(40));
}

#[test]
fn retrying() {
    assert_eq!(retry_step(true, 0), RetryStep::Stop);
    assert_eq!(retry_step(false, 3_000_000_000), RetryStep::Retry(false));
    assert_eq!(retry_step(false, 3_000_000_001), RetryStep::Retry(true));
}

#[test]
fn forwarding_goes_by_command_and_type() {
    let tcp = DataChannelCmd::StartForwardTcp;
    let udp = DataChannelCmd::StartForwardUdp;
    assert_eq!(forward_mode(tcp, ServiceType::Tcpmux), Ok(ForwardMode::Tcp));
    assert_eq!(forward_mode(udp, ServiceType::Sudp), Ok(ForwardMode::Udp));
    assert_eq!(
        forward_mode(tcp, ServiceType::Udp).unwrap_err(),
        "Unexpected TCP forward for service type Udp"
    );
    assert_eq!(
        forward_mode(udp, ServiceType::Xtcp).unwrap_err(),
        "Unexpected UDP forward for service type Xtcp"
    );
    assert!(forward_mode(tcp, ServiceType::Xtcp).is_err());
    assert_eq!(
        forward_mode(DataChannelCmd::StartForwardHttp, ServiceType::Udp),
        Ok(ForwardMode::Tcp)
    );
    assert_eq!(
        forward_mode(DataChannelCmd::StartForwardStcp, ServiceType::Xtcp),
        Ok(ForwardMode::Tcp)
    );
}

#[test]
fn visitors_are_planned() {
    let mut s = ClientServiceConfig::with_name("v");
    let p = plan_visitor(&s);
    assert_eq!(p.listen_addr, "127.0.0.1:0");
    assert_eq!(p.server_name, "v");
    assert!(p.secret_key.is_none());
    s.bind_addr = Some("0.0.0.0".to_string());
    s.bind_port = Some(-1);
    s.server_name = Some("db".to_string());
    s.secret_key = Some("k".into());
    let p = plan_visitor(&s);
    assert_eq!(p.listen_addr, "0.0.0.0:-1");
    assert_eq!(p.server_name, "db");
    assert_eq!(p.secret_key.as_deref(), Some("k"));
}

#[test]
fn packets_go_to_their_forwarder() {
    let mut t = UdpSessions::new();
    let a = SocketAddress::V4([1, 2, 3, 4], 5);
    let b = SocketAddress::V4([1, 2, 3, 4], 6);
    let c = SocketAddress::V6([1; 16], 5);
    assert_eq!(t.packet_from(&a), PacketAction::Connect);
    assert_eq!(t.connected(a, Some(1)), PacketAction::Deliver(1));
    assert_eq!(t.packet_from(&a), PacketAction::Deliver(1));
    assert_eq!(t.packet_from(&b), PacketAction::Connect);
    assert_eq!(t.connected(b, None), PacketAction::Drop);
    assert_eq!(t.connected(c, Some(2)), PacketAction::Deliver(2));
    t.remove(&a);
    assert_eq!(t.packet_from(&a), PacketAction::Connect);
    assert_eq!(t.packet_from(&c), PacketAction::Deliver(2));
}

#[test]
fn forwarders_end() {
    assert_eq!(forwarder_step(ForwarderEvent::FromVisitor), ForwarderAction::ToService);
    assert_eq!(forwarder_step(ForwarderEvent::FromService(true)), ForwarderAction::ToVisitor);
    assert_eq!(forwarder_step(ForwarderEvent::FromService(false)), ForwarderAction::Stop);
    assert_eq!(forwarder_step(ForwarderEvent::VisitorGone), ForwarderAction::Stop);
    assert_eq!(forwarder_step(ForwarderEvent::Timeout), ForwarderAction::Stop);
}
