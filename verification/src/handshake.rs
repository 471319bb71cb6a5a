//! Letting clients and visitors in. Each step of a handshake takes what came over the
//! connection and says what happens next.

use vstd::prelude::*;

use crate::channels;
use crate::config::{MaskedString, ServerServiceConfig, ServiceType};
use crate::protocol;
use crate::protocol::{Ack, Digest};
use crate::server::ServerState;

verus! {

/// Why the server refuses a client or a visitor.
#[derive(Debug)]
pub enum HandshakeError {
    /// A client asks for a service that is not there; its digest in hexadecimal.
    NoService(String),
    /// The token of the client is not that of the service.
    AuthFailed(String),
    /// A visitor asks for a service that is not there.
    NoServiceForVisitor,
    /// A visitor asks for a service that is not secret.
    NotSecret(String),
    /// The service has no key.
    NoSecretKey(String),
    /// The key of the visitor is not that of the service.
    SecretKeyMismatch(String),
    /// No client provides the service at this moment.
    NoClient(String),
}

impl HandshakeError {
    /// What the other side is told before the connection is closed; nothing where the service
    /// has no key.
    pub open spec fn reply(self) -> Option<Ack> {
        match self {
            HandshakeError::NoService(_) => Some(Ack::ServiceNotExist),
            HandshakeError::AuthFailed(_) => Some(Ack::AuthFailed),
            HandshakeError::NoServiceForVisitor => Some(Ack::ServiceNotExist),
            HandshakeError::NotSecret(_) => Some(Ack::ServiceNotExist),
            HandshakeError::NoSecretKey(_) => None,
            HandshakeError::SecretKeyMismatch(_) => Some(Ack::SecretKeyMismatch),
            HandshakeError::NoClient(_) => Some(Ack::ServiceNotReady),
        }
    }

    /// Computes [`reply`](Self::reply).
    pub fn ack(&self) -> (r: Option<Ack>)
        ensures
            r == self.reply(),
            self is NoService || self is NoServiceForVisitor || self is NotSecret ==> r == Some(
                Ack::ServiceNotExist,
            ),
            self is AuthFailed ==> r == Some(Ack::AuthFailed),
            self is SecretKeyMismatch ==> r == Some(Ack::SecretKeyMismatch),
            self is NoClient ==> r == Some(Ack::ServiceNotReady),
            self is NoSecretKey ==> r is None,
    {
        match self {
            HandshakeError::NoService(_) => Some(Ack::ServiceNotExist),
            HandshakeError::AuthFailed(_) => Some(Ack::AuthFailed),
            HandshakeError::NoServiceForVisitor => Some(Ack::ServiceNotExist),
            HandshakeError::NotSecret(_) => Some(Ack::ServiceNotExist),
            HandshakeError::NoSecretKey(_) => None,
            HandshakeError::SecretKeyMismatch(_) => Some(Ack::SecretKeyMismatch),
            HandshakeError::NoClient(_) => Some(Ack::ServiceNotReady),
        }
    }

    /// The message for the log.
    pub open spec fn text(self) -> Seq<char> {
        match self {
            HandshakeError::NoService(d) => "No such a service "@ + d@,
            HandshakeError::AuthFailed(n) => "Service "@ + n@ + " failed the authentication"@,
            HandshakeError::NoServiceForVisitor => "No such service for visitor"@,
            HandshakeError::NotSecret(n) => "Service "@ + n@ + " is not a secret type"@,
            HandshakeError::NoSecretKey(n) => "Service "@ + n@ + " has no secret_key"@,
            HandshakeError::SecretKeyMismatch(n) => "Visitor secret key mismatch for service "@
                + n@,
            HandshakeError::NoClient(n) => "No client connected for service "@ + n@,
        }
    }

    /// Renders the error for the log.
    pub fn message(&self) -> (r: String)
        ensures
            r@ == self.text(),
            self matches HandshakeError::NoService(d) ==> r@ == "No such a service "@ + d@,
            self matches HandshakeError::AuthFailed(n) ==> r@ == "Service "@ + n@
                + " failed the authentication"@,
            self is NoServiceForVisitor ==> r@ == "No such service for visitor"@,
            self matches HandshakeError::NotSecret(n) ==> r@ == "Service "@ + n@
                + " is not a secret type"@,
            self matches HandshakeError::NoSecretKey(n) ==> r@ == "Service "@ + n@
                + " has no secret_key"@,
            self matches HandshakeError::SecretKeyMismatch(n) ==> r@
                == "Visitor secret key mismatch for service "@ + n@,
            self matches HandshakeError::NoClient(n) ==> r@ == "No client connected for service "@
                + n@,
    {
        match self {
            HandshakeError::NoService(d) => {
                let mut m = "No such a service ".to_string();
                m.append(d.as_str());
                m
            },
            HandshakeError::AuthFailed(n) => {
                let mut m = "Service ".to_string();
                m.append(n.as_str());
                m.append(" failed the authentication");
                m
            },
            HandshakeError::NoServiceForVisitor => "No such service for visitor".to_string(),
            HandshakeError::NotSecret(n) => {
                let mut m = "Service ".to_string();
                m.append(n.as_str());
                m.append(" is not a secret type");
                m
            },
            HandshakeError::NoSecretKey(n) => {
                let mut m = "Service ".to_string();
                m.append(n.as_str());
                m.append(" has no secret_key");
                m
            },
            HandshakeError::SecretKeyMismatch(n) => {
                let mut m = "Visitor secret key mismatch for service ".to_string();
                m.append(n.as_str());
                m
            },
            HandshakeError::NoClient(n) => {
                let mut m = "No client connected for service ".to_string();
                m.append(n.as_str());
                m
            },
        }
    }
}

/// Nobody is told to be let in when they are refused.
pub proof fn refusal_is_no_acceptance(e: HandshakeError)
    ensures
        e.reply() != Some(Ack::Accepted),
{
}

// ---------- clients ----------

/// A client has said which service it wants to provide, and the server answers with a nonce.
pub struct Greeting {
    service: Digest,
    nonce: Digest,
}

/// The client has the nonce and must prove that it has the token of the service.
pub struct Proving {
    service: Digest,
    nonce: Digest,
    name: String,
    token: MaskedString,
}

/// The client is let in; it is told so, and its control channel is set up.
pub struct Admitted {
    service: Digest,
    session: Digest,
}

impl Greeting {
    /// The service that the client wants to provide.
    pub closed spec fn service(&self) -> Seq<u8> {
        self.service@
    }

    /// The nonce that the client is sent.
    pub closed spec fn nonce(&self) -> Seq<u8> {
        self.nonce@
    }

    /// Starts a handshake with a nonce that is drawn by chance.
    pub fn new(service: Digest) -> (r: Greeting)
        ensures
            r.service() == service@,
    {
        Greeting::with_nonce(service, protocol::fresh_nonce())
    }

    /// Starts a handshake with this nonce.
    pub fn with_nonce(service: Digest, nonce: Digest) -> (r: Greeting)
        ensures
            r.service() == service@,
            r.nonce() == nonce@,
    {
        Greeting { service, nonce }
    }

    /// The nonce to send.
    pub fn challenge(&self) -> (r: Digest)
        ensures
            r@ == self.nonce(),
    {
        self.nonce
    }

    /// Goes on when the nonce was sent: the service must be there. A service of a running
    /// server has a token.
    pub fn sent(self, state: &ServerState) -> (r: Result<Proving, HandshakeError>)
        requires
            state.services@.dom().contains(self.service()) ==> state.services@[self.service()].token
                is Some,
        ensures
            match r {
                Ok(p) => state.services@.dom().contains(self.service()) && p.asks(
                    self.service(),
                    self.nonce(),
                    state.services@[self.service()],
                ),
                Err(HandshakeError::NoService(d)) => !state.services@.dom().contains(
                    self.service(),
                ) && d@ == protocol::hex_text(self.service()),
                Err(_) => false,
            },
    {
        match state.services.get(&self.service) {
            Some(s) => {
                let token = s.token.as_ref().unwrap().clone();
                Ok(
                    Proving {
                        service: self.service,
                        nonce: self.nonce,
                        name: s.name.clone(),
                        token,
                    },
                )
            },
            None => Err(HandshakeError::NoService(protocol::digest_text(&self.service))),
        }
    }
}

impl Proving {
    /// The service that the client wants to provide.
    pub closed spec fn service(&self) -> Seq<u8> {
        self.service@
    }

    /// The name of the service.
    pub closed spec fn name(&self) -> String {
        self.name
    }

    /// The proof that is expected.
    pub closed spec fn expected(&self) -> Seq<u8> {
        protocol::proof_of(self.token@, self.nonce@)
    }

    /// Whether the client is asked to prove, for this nonce, that it has the token of this
    /// service.
    pub open spec fn asks(&self, service: Seq<u8>, nonce: Seq<u8>, s: ServerServiceConfig) -> bool {
        &&& self.service() == service
        &&& self.name() == s.name
        &&& s.token is Some
        &&& self.expected() == protocol::proof_of(s.token.unwrap()@, nonce)
    }

    /// Checks the proof. Where it is right, the control channel that the service had is
    /// dropped: its handle is given back. The proof is the session key of the new channel.
    pub fn check(self, state: &mut ServerState, sent: &Digest) -> (r: Result<
        (Admitted, Option<u64>),
        HandshakeError,
    >)
        ensures
            final(state).services == old(state).services,
            final(state).router == old(state).router,
            match r {
                Ok((a, dropped)) => {
                    &&& sent@ == self.expected()
                    &&& a.service() == self.service()
                    &&& a.session() == sent@
                    &&& dropped == old(state).channels@.of_service(self.service())
                    &&& final(state).channels@ == old(state).channels@.without(self.service())
                },
                Err(e) => {
                    &&& sent@ != self.expected()
                    &&& e == HandshakeError::AuthFailed(self.name())
                    &&& final(state).channels@ == old(state).channels@
                },
            },
            old(state).wf() ==> final(state).wf(),
    {
        let session = protocol::auth_digest(self.token.as_str(), &self.nonce);
        if !protocol::digests_equal(&session, sent) {
            return Err(HandshakeError::AuthFailed(self.name));
        }
        let dropped = state.channels.remove1(&self.service);
        Ok((Admitted { service: self.service, session }, dropped))
    }
}

impl Admitted {
    /// The service that the client provides.
    pub closed spec fn service(&self) -> Seq<u8> {
        self.service@
    }

    /// The session key of the control channel.
    pub closed spec fn session(&self) -> Seq<u8> {
        self.session@
    }

    /// Sets up the control channel, once the client was told that it is let in. Nothing is set
    /// up where the service or the session key has a channel.
    pub fn install(self, state: &mut ServerState, handle: u64) -> (r: bool)
        ensures
            final(state).services == old(state).services,
            final(state).router == old(state).router,
            r == old(state).channels@.is_free(self.service(), self.session()),
            final(state).channels@ == (if r {
                old(state).channels@.with(self.service(), self.session(), handle)
            } else {
                old(state).channels@
            }),
            old(state).wf() ==> final(state).wf(),
    {
        state.channels.insert(self.service, self.session, handle)
    }
}

/// The channels after a client was let in: its new channel takes the place of the one that
/// the service had.
pub open spec fn channel_replaced(
    channels: channels::ChannelsView,
    service: Seq<u8>,
    session: Seq<u8>,
    handle: u64,
) -> channels::ChannelsView {
    let rest = channels.without(service);
    if rest.is_free(service, session) {
        rest.with(service, session, handle)
    } else {
        rest
    }
}

/// Letting a client in keeps the table of channels in order. Unless the session key is that of
/// another service, the new channel is found by the service and by the session key.
pub proof fn new_channel_is_found(
    channels: channels::ChannelsView,
    service: Seq<u8>,
    session: Seq<u8>,
    handle: u64,
)
    requires
        channels.wf(),
    ensures
        channel_replaced(channels, service, session, handle).wf(),
        !channels.by_session.dom().contains(session) || channels.by_session[session].0 == service
            ==> ({
            let after = channel_replaced(channels, service, session, handle);
            &&& after.of_service(service) == Some(handle)
            &&& after.of_session(session) == Some(handle)
        }),
{
    let rest = channels.without(service);
    channels::removed_channel_is_gone(channels, service);
    if rest.is_free(service, session) {
        channels::adding_keeps_wf(rest, service, session, handle);
    }
    if channels.by_session.dom().contains(session) && channels.by_session[session].0 == service {
        assert(channels.by_service[service].0 == session);
    }
}

// ---------- visitors ----------

/// A visitor must prove that it has the key of a secret service.
pub struct Visit {
    service: Digest,
    nonce: Digest,
    name: String,
    key: MaskedString,
}

/// What is said to a visitor who asks for a service.
pub open spec fn visit_answered(
    state: ServerState,
    service: Seq<u8>,
    r: Result<Visit, HandshakeError>,
) -> bool {
    let known = state.services@.dom().contains(service);
    let s = state.services@[service];
    match r {
        Ok(v) => known && s.service_type.is_secret() && s.secret_key is Some && v.service()
            == service && v.name() == s.name && v.key() == s.secret_key.unwrap()@,
        Err(HandshakeError::NoServiceForVisitor) => !known,
        Err(HandshakeError::NotSecret(n)) => known && !s.service_type.is_secret() && n == s.name,
        Err(HandshakeError::NoSecretKey(n)) => known && s.service_type.is_secret()
            && s.secret_key is None && n == s.name,
        Err(_) => false,
    }
}

/// A visitor is asked for a proof exactly where the service is there, is of a secret type and
/// has a key; else it is refused, and told why.
pub proof fn secret_services_can_be_visited(
    state: ServerState,
    service: Seq<u8>,
    r: Result<Visit, HandshakeError>,
)
    requires
        visit_answered(state, service, r),
    ensures
        ({
            let known = state.services@.dom().contains(service);
            let s = state.services@[service];
            let secret = s.service_type == ServiceType::Stcp || s.service_type == ServiceType::Sudp
                || s.service_type == ServiceType::Xtcp;
            &&& known && secret && s.secret_key is Some ==> r is Ok
            &&& r matches Ok(v) ==> known && secret && v.service() == service && v.name() == s.name
                && v.key() == s.secret_key.unwrap()@ && s.secret_key is Some
            &&& !known ==> r == Err::<Visit, _>(HandshakeError::NoServiceForVisitor)
            &&& known && !secret ==> r == Err::<Visit, _>(HandshakeError::NotSecret(s.name))
            &&& known && secret && s.secret_key is None ==> r == Err::<Visit, _>(
                HandshakeError::NoSecretKey(s.name),
            )
        }),
{
}

/// Letting a client in changes nothing of the channels of other services, unless the session
/// key is theirs.
pub proof fn other_channels_stay_when_a_client_comes(
    channels: channels::ChannelsView,
    service: Seq<u8>,
    session: Seq<u8>,
    handle: u64,
    other: Seq<u8>,
)
    requires
        channels.wf(),
        other != service,
    ensures
        channel_replaced(channels, service, session, handle).of_service(other)
            == channels.of_service(other),
{
}

impl Visit {
    /// The service that is visited.
    pub closed spec fn service(&self) -> Seq<u8> {
        self.service@
    }

    /// The nonce that the visitor is sent.
    pub closed spec fn nonce(&self) -> Seq<u8> {
        self.nonce@
    }

    /// The name of the service.
    pub closed spec fn name(&self) -> String {
        self.name
    }

    /// The key of the service.
    pub closed spec fn key(&self) -> Seq<char> {
        self.key@
    }

    /// Starts the visit of a service with a nonce that is drawn by chance.
    pub fn new(state: &ServerState, service: &Digest) -> (r: Result<Visit, HandshakeError>)
        ensures
            visit_answered(*state, service@, r),
    {
        Visit::with_nonce(state, service, protocol::fresh_nonce())
    }

    /// Starts the visit of a service with this nonce. The service must be secret and have a
    /// key.
    pub fn with_nonce(state: &ServerState, service: &Digest, nonce: Digest) -> (r: Result<
        Visit,
        HandshakeError,
    >)
        ensures
            visit_answered(*state, service@, r),
            r matches Ok(v) ==> v.nonce() == nonce@,
    {
        match state.services.get(service) {
            Some(s) => {
                let t = s.service_type;
                if !(t == ServiceType::Stcp || t == ServiceType::Sudp || t == ServiceType::Xtcp) {
                    return Err(HandshakeError::NotSecret(s.name.clone()));
                }
                match &s.secret_key {
                    Some(key) => Ok(
                        Visit {
                            service: *service,
                            nonce,
                            name: s.name.clone(),
                            key: key.clone(),
                        },
                    ),
                    None => Err(HandshakeError::NoSecretKey(s.name.clone())),
                }
            },
            None => Err(HandshakeError::NoServiceForVisitor),
        }
    }

    /// The nonce to send.
    pub fn challenge(&self) -> (r: Digest)
        ensures
            r@ == self.nonce(),
    {
        self.nonce
    }

    /// Checks the proof of the visitor and finds the control channel of the service, on which
    /// a data channel is asked for.
    pub fn check(self, state: &ServerState, sent: &Digest) -> (r: Result<u64, HandshakeError>)
        ensures
            ({
                let right = protocol::proof_of(self.key(), self.nonce());
                let channel = state.channels@.of_service(self.service());
                match r {
                    Ok(handle) => sent@ == right && channel == Some(handle),
                    Err(HandshakeError::SecretKeyMismatch(n)) => sent@ != right && n == self.name(),
                    Err(HandshakeError::NoClient(n)) => sent@ == right && channel is None && n
                        == self.name(),
                    Err(_) => false,
                }
            }),
    {
        let expected = protocol::auth_digest(self.key.as_str(), &self.nonce);
        if !protocol::digests_equal(&expected, sent) {
            return Err(HandshakeError::SecretKeyMismatch(self.name));
        }
        match state.channels.get1(&self.service) {
            Some(handle) => Ok(handle),
            None => Err(HandshakeError::NoClient(self.name)),
        }
    }
}

} // verus!
