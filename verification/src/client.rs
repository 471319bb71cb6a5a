//! What the client decides. Reading, writing and waiting is left to its caller.

use vstd::prelude::*;

use crate::config::{
    ClientConfig, ClientServiceChange, ClientServiceConfig, Config, ConfigChange,
    ServerServiceConfig, ServiceType,
};
use crate::handshake;
use crate::handshake::{Proving, Visit};
use crate::key_map::KeyMap;
use crate::masked;
use crate::name_map::NameMap;
use crate::protocol;
use crate::protocol::{Ack, ControlChannelCmd, DataChannelCmd, Digest, Hello};
use crate::proxy_protocol::SocketAddress;
use crate::server;
use crate::server::{PoolPlan, ServerState};
use crate::text;
use crate::validate;

verus! {

// ---------- starting a client ----------

/// The client part of a configuration. Without it there is an error with this message.
pub fn client_part(config: Config) -> (r: Result<ClientConfig, String>)
    ensures
        match r {
            Ok(c) => config.client == Some(c),
            Err(e) => config.client is None && e@
                == "Try to run as a client, but the configuration is missing. Please add the `[client]` block"@,
        },
{
    match config.client {
        Some(c) => Ok(c),
        None => Err(
            "Try to run as a client, but the configuration is missing. Please add the `[client]` block".to_string(),
        ),
    }
}

/// What the client does with a service when it starts.
#[derive(Debug, Clone, Copy, PartialEq, Eq, Structural)]
pub enum StartAction {
    /// The service is switched off.
    Disabled,
    /// The service is not in the list of those to start.
    NotListed,
    /// The service is visited: the client listens for local connections.
    Visit,
    /// The service is provided: the client opens a control channel.
    Provide,
}

/// What the client does with a service when it starts.
pub open spec fn start_of(
    client: ClientConfig,
    key: Seq<char>,
    s: ClientServiceConfig,
) -> StartAction {
    if !s.enabled() {
        StartAction::Disabled
    } else if !validate::is_started(client, key, s) {
        StartAction::NotListed
    } else if s.visits() {
        StartAction::Visit
    } else {
        StartAction::Provide
    }
}

/// A service that is switched on is started, unless there is a list of services to start and
/// it is not in it. It is visited where it is of a secret type and names the service of
/// another client, else it is provided.
pub proof fn services_are_started_as_configured(
    client: ClientConfig,
    key: Seq<char>,
    s: ClientServiceConfig,
)
    ensures
        ({
            let action = start_of(client, key, s);
            let listed = client.start is None || exists|i: int|
                0 <= i < client.start.unwrap()@.len() && (
                #[trigger] client.start.unwrap()@[i])@ == key;
            let secret = s.service_type == ServiceType::Stcp || s.service_type == ServiceType::Sudp
                || s.service_type == ServiceType::Xtcp;
            &&& action == StartAction::Disabled <==> s.enabled == Some(false)
            &&& action == StartAction::NotListed <==> s.enabled != Some(false) && !listed
            &&& action == StartAction::Visit <==> s.enabled != Some(false) && listed && secret
                && s.server_name is Some
            &&& action == StartAction::Provide <==> s.enabled != Some(false) && listed && !(secret
                && s.server_name is Some)
        }),
{
}

/// Computes [`start_of`] for service `i`.
pub fn start_action(client: &ClientConfig, i: usize) -> (r: StartAction)
    requires
        i < client.services.entries().len(),
    ensures
        r == start_of(
            *client,
            client.services.entries()[i as int].0@,
            client.services.entries()[i as int].1,
        ),
{
    let s = client.services.value_at(i);
    if !s.is_enabled() {
        return StartAction::Disabled;
    }
    if let Some(list) = &client.start {
        if !text::list_contains(list, client.services.name_at(i)) {
            return StartAction::NotListed;
        }
    }
    if s.is_visitor() {
        StartAction::Visit
    } else {
        StartAction::Provide
    }
}

/// What the client does with each of its services when it starts.
pub fn plan_start(client: &ClientConfig) -> (r: Vec<StartAction>)
    ensures
        r@.len() == client.services.entries().len(),
        forall|i: int|
            0 <= i < r@.len() ==> #[trigger] r@[i] == start_of(
                *client,
                client.services.entries()[i].0@,
                client.services.entries()[i].1,
            ),
{
    let mut plan: Vec<StartAction> = Vec::new();
    let mut i: usize = 0;
    while i < client.services.len()
        invariant
            i <= client.services.entries().len(),
            plan@.len() == i,
            forall|j: int|
                0 <= j < i ==> #[trigger] plan@[j] == start_of(
                    *client,
                    client.services.entries()[j].0@,
                    client.services.entries()[j].1,
                ),
        decreases client.services.entries().len() - i,
    {
        plan.push(start_action(client, i));
        i = i + 1;
    }
    plan
}

// ---------- services that are provided ----------

/// The control channels that a client runs, by name. Their handles are numbers.
pub struct ClientChannels {
    handles: NameMap<u64>,
}

impl View for ClientChannels {
    type V = Map<Seq<char>, u64>;

    closed spec fn view(&self) -> Map<Seq<char>, u64> {
        self.handles@
    }
}

/// The handle that goes by a name.
pub open spec fn handle_of(handles: Map<Seq<char>, u64>, name: Seq<char>) -> Option<u64> {
    if handles.dom().contains(name) {
        Some(handles[name])
    } else {
        None
    }
}

/// The handle that was noted last for a name is found, and no other name is affected.
pub proof fn noted_handles_are_found(
    handles: Map<Seq<char>, u64>,
    name: Seq<char>,
    handle: u64,
    other: Seq<char>,
)
    ensures
        handle_of(handles.insert(name, handle), name) == Some(handle),
        handle_of(handles.remove(name), name) is None,
        other != name ==> handle_of(handles.insert(name, handle), other) == handle_of(
            handles,
            other,
        ),
        other != name ==> handle_of(handles.remove(name), other) == handle_of(handles, other),
        handle_of(Map::empty(), name) is None,
{
}

impl ClientChannels {
    /// Makes a table without channels.
    pub fn new() -> (r: Self)
        ensures
            r@ == Map::<Seq<char>, u64>::empty(),
    {
        ClientChannels { handles: NameMap::new() }
    }

    /// Notes the channel of a service. The handle of the channel that it replaces is given
    /// back.
    pub fn insert(&mut self, name: String, handle: u64) -> (r: Option<u64>)
        ensures
            r == handle_of(old(self)@, name@),
            final(self)@ == old(self)@.insert(name@, handle),
    {
        let replaced = match self.handles.get(name.as_str()) {
            Some(h) => Some(*h),
            None => None,
        };
        self.handles.insert(name, handle);
        replaced
    }

    /// Forgets the channel of a service. Its handle is given back.
    pub fn remove(&mut self, name: &str) -> (r: Option<u64>)
        ensures
            r == handle_of(old(self)@, name@),
            final(self)@ == old(self)@.remove(name@),
    {
        let removed = match self.handles.get(name) {
            Some(h) => Some(*h),
            None => None,
        };
        self.handles.remove(name);
        removed
    }

    /// Takes in a change of the configuration. `handle` is that of the channel that is opened,
    /// where one is.
    pub fn handle_hot_reload(&mut self, change: &ConfigChange, handle: u64) -> (r: ReloadStep)
        ensures
            match change {
                ConfigChange::Client(ClientServiceChange::Add(s)) => if s.enabled() {
                    final(self)@ == old(self)@.insert(s.name@, handle) && r == ReloadStep::Open(
                        handle_of(old(self)@, s.name@),
                    )
                } else {
                    final(self)@ == old(self)@ && r == ReloadStep::Nothing
                },
                ConfigChange::Client(ClientServiceChange::Delete(name)) => final(self)@
                    == old(self)@.remove(name@) && r == ReloadStep::Close(
                    handle_of(old(self)@, name@),
                ),
                ConfigChange::Server(_) => final(self)@ == old(self)@ && r == ReloadStep::Nothing,
            },
    {
        match change {
            ConfigChange::Client(ClientServiceChange::Add(s)) => {
                if s.is_enabled() {
                    ReloadStep::Open(self.insert(s.name.clone(), handle))
                } else {
                    ReloadStep::Nothing
                }
            },
            ConfigChange::Client(ClientServiceChange::Delete(name)) => {
                ReloadStep::Close(self.remove(name.as_str()))
            },
            ConfigChange::Server(_) => ReloadStep::Nothing,
        }
    }
}

/// What the client does when its configuration has changed.
#[derive(Debug, Clone, Copy, PartialEq, Eq, Structural)]
pub enum ReloadStep {
    /// Opens a control channel for the service and closes this one, if there is one.
    Open(Option<u64>),
    /// Closes this control channel, if there is one.
    Close(Option<u64>),
    Nothing,
}

// ---------- handshakes ----------

/// Why a connection to the server does not come about.
#[derive(Debug)]
pub enum ConnectError {
    /// The server answers with a hello of another kind.
    UnexpectedHello,
    /// The server refuses the token of a service.
    AuthFailed(String, Ack),
    /// No heartbeat came in time.
    HeartbeatTimeout,
    /// The server answers a visitor with a hello of another kind.
    UnexpectedResponse,
    /// The visitor has no key.
    NoSecretKey,
    /// The server refuses a visitor.
    VisitorRefused(Ack),
}

impl ConnectError {
    /// The message for the log, without what the server said.
    pub open spec fn text(self) -> Seq<char> {
        match self {
            ConnectError::UnexpectedHello => "Unexpected type of hello"@,
            ConnectError::AuthFailed(name, _) => "Authentication failed: "@ + name@,
            ConnectError::HeartbeatTimeout => "Heartbeat timed out"@,
            ConnectError::UnexpectedResponse => "Unexpected response from server"@,
            ConnectError::NoSecretKey => "No secret_key configured for visitor"@,
            ConnectError::VisitorRefused(_) => "Visitor authentication failed"@,
        }
    }

    /// Renders the error for the log.
    pub fn message(&self) -> (r: String)
        ensures
            r@ == self.text(),
            self is UnexpectedHello ==> r@ == "Unexpected type of hello"@,
            self matches ConnectError::AuthFailed(name, _) ==> r@ == "Authentication failed: "@ + name@,
            self is HeartbeatTimeout ==> r@ == "Heartbeat timed out"@,
            self is UnexpectedResponse ==> r@ == "Unexpected response from server"@,
            self is NoSecretKey ==> r@ == "No secret_key configured for visitor"@,
            self is VisitorRefused ==> r@ == "Visitor authentication failed"@,
    {
        match self {
            ConnectError::UnexpectedHello => "Unexpected type of hello".to_string(),
            ConnectError::AuthFailed(name, _) => {
                let mut m = "Authentication failed: ".to_string();
                m.append(name.as_str());
                m
            },
            ConnectError::HeartbeatTimeout => "Heartbeat timed out".to_string(),
            ConnectError::UnexpectedResponse => "Unexpected response from server".to_string(),
            ConnectError::NoSecretKey => "No secret_key configured for visitor".to_string(),
            ConnectError::VisitorRefused(_) => "Visitor authentication failed".to_string(),
        }
    }
}

/// The nonce that a hello of the server carries.
pub open spec fn nonce_in(hello: Hello) -> Option<Seq<u8>> {
    match hello {
        Hello::ControlChannelHello(_, d) => Some(d@),
        _ => None,
    }
}

/// The nonce of the server comes with the hello of a control channel, and with no other.
pub proof fn nonces_come_with_control_hellos(version: u8, d: Digest)
    ensures
        nonce_in(Hello::ControlChannelHello(version, d)) == Some(d@),
        nonce_in(Hello::DataChannelHello(version, d)) is None,
        nonce_in(Hello::VisitorHello(version, d)) is None,
{
}

/// Answers the hello of the server with the proof that the client has the token of a service.
/// The answer is the session key of the control channel as well.
pub fn answer_hello(service: &ClientServiceConfig, hello: &Hello) -> (r: Result<
    Digest,
    ConnectError,
>)
    requires
        nonce_in(*hello) is Some ==> service.token is Some,
    ensures
        match r {
            Ok(auth) => nonce_in(*hello) is Some && auth@ == protocol::proof_of(
                service.token.unwrap()@,
                nonce_in(*hello).unwrap(),
            ),
            Err(e) => nonce_in(*hello) is None && e is UnexpectedHello,
        },
{
    match hello {
        Hello::ControlChannelHello(_, nonce) => {
            let token = service.token.as_ref().unwrap();
            Ok(protocol::auth_digest(token.as_str(), nonce))
        },
        _ => Err(ConnectError::UnexpectedHello),
    }
}

/// Takes in what the server says to the proof.
pub fn check_ack(service: &ClientServiceConfig, ack: Ack) -> (r: Result<(), ConnectError>)
    ensures
        match r {
            Ok(_) => ack == Ack::Accepted,
            Err(e) => ack != Ack::Accepted && e == ConnectError::AuthFailed(service.name, ack),
        },
{
    match ack {
        Ack::Accepted => Ok(()),
        _ => Err(ConnectError::AuthFailed(service.name.clone(), ack)),
    }
}

/// Answers the hello of the server with the proof that a visitor has the key of a service.
pub fn answer_visitor_hello(secret_key: Option<&str>, hello: &Hello) -> (r: Result<
    Digest,
    ConnectError,
>)
    ensures
        match r {
            Ok(auth) => nonce_in(*hello) is Some && secret_key is Some && auth@
                == protocol::proof_of(secret_key.unwrap()@, nonce_in(*hello).unwrap()),
            Err(ConnectError::UnexpectedResponse) => nonce_in(*hello) is None,
            Err(ConnectError::NoSecretKey) => nonce_in(*hello) is Some && secret_key is None,
            Err(_) => false,
        },
{
    match hello {
        Hello::ControlChannelHello(_, nonce) => match secret_key {
            Some(key) => Ok(protocol::auth_digest(key, nonce)),
            None => Err(ConnectError::NoSecretKey),
        },
        _ => Err(ConnectError::UnexpectedResponse),
    }
}

/// Takes in what the server says to the proof of a visitor.
pub fn check_visitor_ack(ack: Ack) -> (r: Result<(), ConnectError>)
    ensures
        match r {
            Ok(_) => ack == Ack::Accepted,
            Err(e) => ack != Ack::Accepted && e == ConnectError::VisitorRefused(ack),
        },
{
    match ack {
        Ack::Accepted => Ok(()),
        _ => Err(ConnectError::VisitorRefused(ack)),
    }
}

/// A client that answers the nonce of the server with the token of the service gives the proof
/// that the server expects.
pub proof fn same_token_is_accepted(
    asked: Proving,
    service: Seq<u8>,
    nonce: Digest,
    version: u8,
    on_server: ServerServiceConfig,
    on_client: ClientServiceConfig,
)
    requires
        asked.asks(service, nonce@, on_server),
        on_client.token is Some,
        on_client.token.unwrap()@ == on_server.token.unwrap()@,
    ensures
        protocol::proof_of(
            on_client.token.unwrap()@,
            nonce_in(Hello::ControlChannelHello(version, nonce)).unwrap(),
        ) == asked.expected(),
{
}

/// A visitor that answers the nonce of the server with the key of the service gives the proof
/// that the server expects.
pub proof fn same_key_is_accepted(
    state: ServerState,
    service: Seq<u8>,
    visit: Visit,
    nonce: Digest,
    version: u8,
    visitor: ClientServiceConfig,
)
    requires
        handshake::visit_answered(state, service, Ok(visit)),
        visit.nonce() == nonce@,
        masked::opt_secret(visitor.secret_key) == masked::opt_secret(
            state.services@[service].secret_key,
        ),
    ensures
        visitor.secret_key is Some,
        protocol::proof_of(
            visitor.secret_key.unwrap()@,
            nonce_in(Hello::ControlChannelHello(version, nonce)).unwrap(),
        ) == protocol::proof_of(visit.key(), visit.nonce()),
{
}

// ---------- the control channel ----------

/// What happens to a control channel of the client.
#[derive(Debug, Clone, Copy, PartialEq, Eq, Structural)]
pub enum ControlEvent {
    /// The server sent a command.
    Command(ControlChannelCmd),
    /// Nothing came for as long as the client waits for a heartbeat.
    Timeout,
    Shutdown,
}

/// What the client does on a control channel.
#[derive(Debug, Clone, Copy, PartialEq, Eq, Structural)]
pub enum ControlAction {
    /// Opens a data channel.
    OpenDataChannel,
    /// Goes on waiting.
    Wait,
    /// Ends with an error, after which the channel is opened anew.
    Fail,
    Stop,
}

/// Decides what to do on a control channel.
pub fn control_step(event: ControlEvent) -> (r: ControlAction)
    ensures
        r == (match event {
            ControlEvent::Command(ControlChannelCmd::CreateDataChannel) =>
                ControlAction::OpenDataChannel,
            ControlEvent::Command(ControlChannelCmd::HeartBeat) => ControlAction::Wait,
            ControlEvent::Timeout => ControlAction::Fail,
            ControlEvent::Shutdown => ControlAction::Stop,
        }),
{
    match event {
        ControlEvent::Command(ControlChannelCmd::CreateDataChannel) => {
            ControlAction::OpenDataChannel
        },
        ControlEvent::Command(ControlChannelCmd::HeartBeat) => ControlAction::Wait,
        ControlEvent::Timeout => ControlAction::Fail,
        ControlEvent::Shutdown => ControlAction::Stop,
    }
}

/// The seconds for which the client waits for a heartbeat; zero is for ever.
pub fn heartbeat_limit(heartbeat_timeout: u64) -> (r: Option<u64>)
    ensures
        r == server::heartbeat_after(heartbeat_timeout),
        heartbeat_timeout == 0 ==> r is None,
        heartbeat_timeout > 0 ==> r == Some(heartbeat_timeout),
{
    if heartbeat_timeout == 0 {
        None
    } else {
        Some(heartbeat_timeout)
    }
}

/// How long a control channel must have run for the waiting times to start over, in
/// nanoseconds.
pub const RETRY_RESET_NANOS: u128 = 3_000_000_000;

/// What the client does when a control channel has failed.
#[derive(Debug, Clone, Copy, PartialEq, Eq, Structural)]
pub enum RetryStep {
    /// It was to be closed anyway.
    Stop,
    /// Waits and opens it anew; whether the waiting times start over.
    Retry(bool),
}

/// Decides how to go on when a control channel has failed.
pub fn retry_step(shutdown_requested: bool, ran_for_nanos: u128) -> (r: RetryStep)
    ensures
        r == (if shutdown_requested {
            RetryStep::Stop
        } else {
            RetryStep::Retry(ran_for_nanos > RETRY_RESET_NANOS)
        }),
        !shutdown_requested ==> r == RetryStep::Retry(ran_for_nanos > 3_000_000_000),
{
    if shutdown_requested {
        RetryStep::Stop
    } else {
        RetryStep::Retry(ran_for_nanos > RETRY_RESET_NANOS)
    }
}

// ---------- data channels ----------

/// How a data channel is forwarded.
#[derive(Debug, Clone, Copy, PartialEq, Eq, Structural)]
pub enum ForwardMode {
    Tcp,
    Udp,
}

/// Whether a service carries streams.
pub open spec fn carries_streams(t: ServiceType) -> bool {
    t == ServiceType::Tcp || t == ServiceType::Http || t == ServiceType::Https || t
        == ServiceType::Tcpmux || t == ServiceType::Stcp
}

/// Whether a service carries packets.
pub open spec fn carries_packets(t: ServiceType) -> bool {
    t == ServiceType::Udp || t == ServiceType::Sudp
}

/// What a command to start a data channel comes to for a type of service.
pub open spec fn forwarded(
    cmd: DataChannelCmd,
    t: ServiceType,
    r: Result<ForwardMode, String>,
) -> bool {
    match (r, cmd) {
        (Ok(mode), DataChannelCmd::StartForwardTcp) => carries_streams(t) && mode
            == ForwardMode::Tcp,
        (Err(e), DataChannelCmd::StartForwardTcp) => !carries_streams(t) && e@
            == "Unexpected TCP forward for service type "@ + t.text(),
        (Ok(mode), DataChannelCmd::StartForwardUdp) => carries_packets(t) && mode
            == ForwardMode::Udp,
        (Err(e), DataChannelCmd::StartForwardUdp) => !carries_packets(t) && e@
            == "Unexpected UDP forward for service type "@ + t.text(),
        (Ok(mode), _) => mode == ForwardMode::Tcp,
        (Err(_), _) => false,
    }
}

/// The command that the pool of a service writes on the server starts the data channel on the
/// client of that service: a pool of TCP forwards streams and a pool of UDP packets. The other
/// services take the command of a pool neither way, but for the secret ones that carry streams
/// or packets.
pub proof fn pools_and_clients_agree(
    s: ServerServiceConfig,
    cmd: DataChannelCmd,
    r: Result<ForwardMode, String>,
)
    requires
        forwarded(cmd, s.service_type, r),
    ensures
        server::pool_of(s) == PoolPlan::Tcp && cmd == DataChannelCmd::StartForwardTcp ==> r == Ok::<
            _,
            String,
        >(ForwardMode::Tcp),
        server::pool_of(s) == PoolPlan::Udp && cmd == DataChannelCmd::StartForwardUdp ==> r == Ok::<
            _,
            String,
        >(ForwardMode::Udp),
        cmd == DataChannelCmd::StartForwardTcp ==> (match s.service_type {
            ServiceType::Tcp
            | ServiceType::Http
            | ServiceType::Https
            | ServiceType::Tcpmux
            | ServiceType::Stcp => r == Ok::<_, String>(ForwardMode::Tcp),
            ServiceType::Udp | ServiceType::Sudp | ServiceType::Xtcp => r is Err,
        }),
        cmd == DataChannelCmd::StartForwardUdp ==> (match s.service_type {
            ServiceType::Udp | ServiceType::Sudp => r == Ok::<_, String>(ForwardMode::Udp),
            _ => r is Err,
        }),
        cmd == DataChannelCmd::StartForwardHttp || cmd == DataChannelCmd::StartForwardStcp ==> r
            == Ok::<_, String>(ForwardMode::Tcp),
{
}

/// How a data channel is forwarded. A command that does not fit the service is an error with
/// this message.
pub fn forward_mode(cmd: DataChannelCmd, t: ServiceType) -> (r: Result<ForwardMode, String>)
    ensures
        forwarded(cmd, t, r),
        match (r, cmd) {
            (Ok(mode), DataChannelCmd::StartForwardTcp) => carries_streams(t) && mode
                == ForwardMode::Tcp,
            (Err(e), DataChannelCmd::StartForwardTcp) => !carries_streams(t) && e@
                == "Unexpected TCP forward for service type "@ + t.text(),
            (Ok(mode), DataChannelCmd::StartForwardUdp) => carries_packets(t) && mode
                == ForwardMode::Udp,
            (Err(e), DataChannelCmd::StartForwardUdp) => !carries_packets(t) && e@
                == "Unexpected UDP forward for service type "@ + t.text(),
            (Ok(mode), _) => mode == ForwardMode::Tcp,
            (Err(_), _) => false,
        },
        cmd == DataChannelCmd::StartForwardTcp ==> (r is Ok <==> t == ServiceType::Tcp || t
            == ServiceType::Http || t == ServiceType::Https || t == ServiceType::Tcpmux || t
            == ServiceType::Stcp),
        cmd == DataChannelCmd::StartForwardUdp ==> (r is Ok <==> t == ServiceType::Udp || t
            == ServiceType::Sudp),
{
    match cmd {
        DataChannelCmd::StartForwardTcp => match t {
            ServiceType::Tcp
            | ServiceType::Http
            | ServiceType::Https
            | ServiceType::Tcpmux
            | ServiceType::Stcp => Ok(ForwardMode::Tcp),
            _ => {
                let mut e = "Unexpected TCP forward for service type ".to_string();
                e.append(t.name());
                Err(e)
            },
        },
        DataChannelCmd::StartForwardUdp => match t {
            ServiceType::Udp | ServiceType::Sudp => Ok(ForwardMode::Udp),
            _ => {
                let mut e = "Unexpected UDP forward for service type ".to_string();
                e.append(t.name());
                Err(e)
            },
        },
        DataChannelCmd::StartForwardHttp | DataChannelCmd::StartForwardStcp => {
            Ok(ForwardMode::Tcp)
        },
    }
}

// ---------- visitors ----------

/// What a visitor needs.
pub struct VisitorPlan {
    /// Where it listens for local connections.
    pub listen_addr: String,
    /// The service that it visits.
    pub server_name: String,
    pub secret_key: Option<String>,
}

/// Plans a visitor. It listens on the local host at a free port unless it says otherwise.
pub fn plan_visitor(service: &ClientServiceConfig) -> (r: VisitorPlan)
    ensures
        r.listen_addr@ == text::text_or(service.bind_addr, "127.0.0.1"@) + ":"@
            + text::signed_decimal(
            match service.bind_port {
                Some(p) => p as int,
                None => 0,
            },
        ),
        r.server_name@ == text::text_or(service.server_name, service.name@),
        text::opt_text(r.secret_key) == masked::opt_secret(service.secret_key),
        service.server_name matches Some(n) ==> r.server_name@ == n@,
        service.server_name is None ==> r.server_name@ == service.name@,
        service.secret_key matches Some(k) ==> (r.secret_key matches Some(t) && t@ == k@),
        service.secret_key is None ==> r.secret_key is None,
{
    let mut listen_addr = match &service.bind_addr {
        Some(a) => a.clone(),
        None => "127.0.0.1".to_string(),
    };
    let port: i32 = match service.bind_port {
        Some(p) => p,
        None => 0,
    };
    listen_addr.append(":");
    text::push_signed_decimal(&mut listen_addr, port);
    let server_name = match &service.server_name {
        Some(n) => n.clone(),
        None => service.name.clone(),
    };
    let secret_key = match &service.secret_key {
        Some(k) => Some(k.as_str().to_string()),
        None => None,
    };
    VisitorPlan { listen_addr, server_name, secret_key }
}

// ---------- UDP ----------

/// The visitors of a UDP service that the client forwards for, each with the handle of its
/// forwarder.
pub struct UdpSessions {
    handles: KeyMap<SocketAddress, u64>,
}

/// What the client does with a packet of a visitor.
#[derive(Debug, Clone, Copy, PartialEq, Eq, Structural)]
pub enum PacketAction {
    /// Hands it to the forwarder of the visitor.
    Deliver(u64),
    /// Connects to the local service first.
    Connect,
    /// Drops it: the local service could not be reached.
    Drop,
}

impl View for UdpSessions {
    type V = Map<(bool, Seq<u8>, u16), u64>;

    closed spec fn view(&self) -> Map<(bool, Seq<u8>, u16), u64> {
        self.handles@
    }
}

impl UdpSessions {
    /// Makes a table without visitors.
    pub fn new() -> (r: Self)
        ensures
            r@ == Map::<(bool, Seq<u8>, u16), u64>::empty(),
    {
        UdpSessions { handles: KeyMap::new() }
    }

    /// Decides on a packet of a visitor.
    pub fn packet_from(&self, from: &SocketAddress) -> (r: PacketAction)
        ensures
            r == (if self@.dom().contains(from@) {
                PacketAction::Deliver(self@[from@])
            } else {
                PacketAction::Connect
            }),
    {
        match self.handles.get(from) {
            Some(h) => PacketAction::Deliver(*h),
            None => PacketAction::Connect,
        }
    }

    /// Goes on with a packet for which the client had to connect. Where it could, the forwarder
    /// of the visitor has this handle and gets the packet.
    pub fn connected(&mut self, from: SocketAddress, handle: Option<u64>) -> (r: PacketAction)
        ensures
            match handle {
                Some(h) => final(self)@ == old(self)@.insert(from@, h) && r
                    == PacketAction::Deliver(h),
                None => final(self)@ == old(self)@ && r == (if old(self)@.dom().contains(from@) {
                    PacketAction::Deliver(old(self)@[from@])
                } else {
                    PacketAction::Drop
                }),
            },
    {
        match handle {
            Some(h) => {
                self.handles.insert(from, h);
                PacketAction::Deliver(h)
            },
            None => match self.packet_from(&from) {
                PacketAction::Deliver(h) => PacketAction::Deliver(h),
                _ => PacketAction::Drop,
            },
        }
    }

    /// Forgets a visitor whose forwarder has ended.
    pub fn remove(&mut self, from: &SocketAddress)
        ensures
            final(self)@ == old(self)@.remove(from@),
    {
        self.handles.remove(from);
    }
}

/// What happens to the forwarder of a visitor of a UDP service.
#[derive(Debug, Clone, Copy, PartialEq, Eq, Structural)]
pub enum ForwarderEvent {
    /// A packet of the visitor.
    FromVisitor,
    /// No more packets of the visitor come.
    VisitorGone,
    /// A packet of the local service, or an error in its place.
    FromService(bool),
    /// Nothing came for a while.
    Timeout,
}

/// What the forwarder of a visitor does.
#[derive(Debug, Clone, Copy, PartialEq, Eq, Structural)]
pub enum ForwarderAction {
    /// Hands the packet to the local service.
    ToService,
    /// Sends the packet back to the visitor.
    ToVisitor,
    /// Ends; the visitor is forgotten.
    Stop,
}

/// Decides what the forwarder of a visitor does.
pub fn forwarder_step(event: ForwarderEvent) -> (r: ForwarderAction)
    ensures
        r == (match event {
            ForwarderEvent::FromVisitor => ForwarderAction::ToService,
            ForwarderEvent::FromService(true) => ForwarderAction::ToVisitor,
            _ => ForwarderAction::Stop,
        }),
{
    match event {
        ForwarderEvent::FromVisitor => ForwarderAction::ToService,
        ForwarderEvent::FromService(true) => ForwarderAction::ToVisitor,
        _ => ForwarderAction::Stop,
    }
}

} // verus!
