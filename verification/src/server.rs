//! What the server decides. Reading, writing and waiting is left to its caller.

use vstd::prelude::*;

use crate::channels;
use crate::channels::ChannelTable;
use crate::config::{
    Config, ConfigChange, ServerConfig, ServerServiceChange, ServerServiceConfig, ServiceType,
    TransportType, WebServerConfig,
};
use crate::handshake::Proving;
use crate::http_proxy;
use crate::http_proxy::{HttpParseError, HttpRequestInfo, HttpRoute, VhostRouter};
use crate::key_map::DigestMap;
use crate::masked;
use crate::name_map::NameMap;
use crate::protocol;
use crate::protocol::{ControlChannelCmd, DataChannelCmd};
use crate::text;
use crate::validate;

verus! {

// ---------- services ----------

/// The services by the digests of their names, once the entries of the configuration were
/// looked at in their order. Services that are switched off are left out.
pub open spec fn service_table(
    entries: Seq<(String, ServerServiceConfig)>,
) -> Map<Seq<u8>, ServerServiceConfig>
    decreases entries.len(),
{
    if entries.len() == 0 {
        Map::empty()
    } else {
        let rest = service_table(entries.drop_last());
        if entries.last().1.enabled() {
            rest.insert(protocol::name_digest(entries.last().0@), entries.last().1)
        } else {
            rest
        }
    }
}

/// Puts the services of a configuration into a table by the digests of their names.
pub fn generate_service_hashmap(services: NameMap<ServerServiceConfig>) -> (r: DigestMap<
    ServerServiceConfig,
>)
    ensures
        r@ == service_table(services.entries()),
{
    let ghost entries = services.entries();
    let mut table: DigestMap<ServerServiceConfig> = DigestMap::new();
    let items = services.into_entries();
    assert(service_table(entries.take(0)) == Map::<Seq<u8>, ServerServiceConfig>::empty());
    for e in it: items
        invariant
            it.seq() == entries,
            table@ == service_table(entries.take(it.index())),
    {
        proof {
            let t = entries.take(it.index() + 1);
            assert(t.drop_last() == entries.take(it.index()));
            assert(t.last() == e);
        }
        if e.1.is_enabled() {
            table.insert(protocol::service_digest(e.0.as_str()), e.1);
        }
    }
    assert(entries.take(entries.len() as int) == entries);
    table
}

proof fn lemma_served(entries: Seq<(String, ServerServiceConfig)>, digest: Seq<u8>) -> (i: int)
    requires
        service_table(entries).dom().contains(digest),
    ensures
        0 <= i < entries.len(),
        service_table(entries)[digest] == entries[i].1,
        digest == protocol::name_digest(entries[i].0@),
        entries[i].1.enabled(),
    decreases entries.len(),
{
    let last = entries.last();
    if last.1.enabled() && digest == protocol::name_digest(last.0@) {
        entries.len() - 1
    } else {
        lemma_served(entries.drop_last(), digest)
    }
}

/// What is in the table is a service of the configuration that is switched on, under the digest
/// of its name.
pub proof fn only_enabled_services_are_served(
    entries: Seq<(String, ServerServiceConfig)>,
    digest: Seq<u8>,
) -> (i: int)
    requires
        service_table(entries).dom().contains(digest),
    ensures
        0 <= i < entries.len(),
        service_table(entries)[digest] == entries[i].1,
        digest == protocol::name_digest(entries[i].0@),
        entries[i].1.enabled != Some(false),
{
    lemma_served(entries, digest)
}

/// Every service that is switched on, of whatever type, is in the table under the digest of its
/// name, with its own settings, unless a later one that is switched on has the same digest.
pub proof fn enabled_services_are_served(entries: Seq<(String, ServerServiceConfig)>, i: int)
    requires
        0 <= i < entries.len(),
        entries[i].1.enabled is None || entries[i].1.enabled == Some(true),
        forall|j: int|
            i < j < entries.len() && (#[trigger] entries[j]).1.enabled != Some(false)
                ==> protocol::name_digest(entries[j].0@) != protocol::name_digest(entries[i].0@),
    ensures
        service_table(entries).dom().contains(protocol::name_digest(entries[i].0@)),
        service_table(entries)[protocol::name_digest(entries[i].0@)] == entries[i].1,
    decreases entries.len(),
{
    let init = entries.drop_last();
    let last = entries.last();
    if i < entries.len() - 1 {
        assert(init[i] == entries[i]);
        assert forall|j: int|
            i < j < init.len() && (#[trigger] init[j]).1.enabled
                != Some(false) implies protocol::name_digest(init[j].0@) != protocol::name_digest(
            init[i].0@,
        ) by {
            assert(init[j] == entries[j]);
        }
        enabled_services_are_served(init, i);
        assert(entries[entries.len() - 1] == last);
    }
}

/// A client that has the token of a service of a valid server that is switched on is let in:
/// the service is found under the digest of its name, and the proof that the server then
/// expects is the digest of the token and the nonce. The token is that of the service, else
/// that of the authentication section, else the default.
pub proof fn client_with_the_token_is_let_in(
    before: ServerConfig,
    valid: ServerConfig,
    i: int,
    nonce: Seq<u8>,
    asked: Proving,
)
    requires
        validate::server_checked(before, valid, Ok(())),
        0 <= i < before.services.entries().len(),
        before.services.entries()[i].1.enabled != Some(false),
        forall|j: int|
            i < j < before.services.entries().len() && (
            #[trigger] before.services.entries()[j]).1.enabled != Some(false)
                ==> protocol::name_digest(before.services.entries()[j].0@)
                != protocol::name_digest(before.services.entries()[i].0@),
        asked.asks(
            protocol::name_digest(before.services.entries()[i].0@),
            nonce,
            service_table(valid.services.entries())[protocol::name_digest(
                before.services.entries()[i].0@,
            )],
        ),
    ensures
        ({
            let digest = protocol::name_digest(before.services.entries()[i].0@);
            let given = before.services.entries()[i].1;
            &&& service_table(valid.services.entries()).dom().contains(digest)
            &&& given.token matches Some(t) ==> asked.expected() == protocol::sha256(
                vstd::utf8::encode_utf8(t@) + nonce,
            )
            &&& given.token is None && before.auth is Some ==> (before.auth.unwrap().token matches Some(
                t,
            ) ==> asked.expected() == protocol::sha256(vstd::utf8::encode_utf8(t@) + nonce))
            &&& given.token is None && (before.auth is None || before.auth.unwrap().token is None)
                ==> before.default_token is Some && asked.expected() == protocol::sha256(
                vstd::utf8::encode_utf8(before.default_token.unwrap()@) + nonce,
            )
        }),
{
    let entries = valid.services.entries();
    let given = before.services.entries();
    assert(validate::server_problem_at(before, i) is None);
    assert forall|j: int| i < j < entries.len() && (#[trigger] entries[j]).1.enabled
        != Some(false) implies protocol::name_digest(entries[j].0@) != protocol::name_digest(
        entries[i].0@,
    ) by {
        assert(given[j].1.enabled != Some(false));
    }
    if let Some(on) = given[i].1.enabled {
        assert(given[i].1.enabled == Some(on));
        assert(on == true || on == false);
    }
    enabled_services_are_served(entries, i);
}

/// Every service that a valid server starts with is found under the digest of its name, is
/// switched on and has a token, and if it is secret it has a key.
pub proof fn served_services_can_be_joined(
    before: ServerConfig,
    valid: ServerConfig,
    digest: Seq<u8>,
)
    requires
        validate::server_checked(before, valid, Ok(())),
        service_table(valid.services.entries()).dom().contains(digest),
    ensures
        ({
            let s = service_table(valid.services.entries())[digest];
            &&& digest == protocol::name_digest(s.name@)
            &&& s.enabled()
            &&& s.token is Some
            &&& s.service_type.is_secret() ==> s.secret_key is Some
        }),
{
    let i = lemma_served(valid.services.entries(), digest);
    validate::valid_server_services_have_tokens(before, valid, i);
    validate::valid_server_services_can_run(before, valid, i);
}

// ---------- routes ----------

/// The texts of an optional list.
pub open spec fn opt_list(v: Option<Vec<String>>) -> Seq<String> {
    match v {
        Some(v) => v@,
        None => Seq::empty(),
    }
}

/// The entries of an optional map.
pub open spec fn opt_entries(m: Option<NameMap<String>>) -> Seq<(String, String)> {
    match m {
        Some(m) => m.entries(),
        None => Seq::empty(),
    }
}

/// Whether a route is the one that leads to a service.
pub open spec fn leads_to(route: HttpRoute, name: Seq<char>, s: ServerServiceConfig) -> bool {
    &&& route.service_name@ == name
    &&& route.custom_domains@ == opt_list(s.custom_domains)
    &&& route.subdomain == s.subdomain
    &&& route.locations@ == opt_list(s.locations)
    &&& route.host_header_rewrite == s.host_header_rewrite
    &&& route.http_user == s.http_user
    &&& text::opt_text(route.http_password) == masked::opt_secret(s.http_password)
    &&& route.request_headers.entries() == opt_entries(s.request_headers)
    &&& route.response_headers.entries() == opt_entries(s.response_headers)
    &&& route.route_by_http_user == s.route_by_http_user
}

/// Copies an optional list.
fn copy_opt_list(v: &Option<Vec<String>>) -> (r: Vec<String>)
    ensures
        r@ == opt_list(*v),
{
    match v {
        Some(v) => text::copy_list(v),
        None => Vec::new(),
    }
}

/// Copies an optional map.
fn copy_opt_map(m: &Option<NameMap<String>>) -> (r: NameMap<String>)
    ensures
        r.entries() == opt_entries(*m),
{
    match m {
        Some(m) => m.copy(),
        None => NameMap::new(),
    }
}

/// The route that leads to a service.
pub fn service_route(name: &str, s: &ServerServiceConfig) -> (r: HttpRoute)
    ensures
        leads_to(r, name@, *s),
{
    HttpRoute {
        service_name: name.to_string(),
        custom_domains: copy_opt_list(&s.custom_domains),
        subdomain: text::copy_option(&s.subdomain),
        locations: copy_opt_list(&s.locations),
        host_header_rewrite: text::copy_option(&s.host_header_rewrite),
        http_user: text::copy_option(&s.http_user),
        http_password: match &s.http_password {
            Some(p) => Some(p.as_str().to_string()),
            None => None,
        },
        request_headers: copy_opt_map(&s.request_headers),
        response_headers: copy_opt_map(&s.response_headers),
        route_by_http_user: text::copy_option(&s.route_by_http_user),
    }
}

/// Whether the routes are those of the enabled HTTP services, in the order of the services.
pub open spec fn routes_of(
    entries: Seq<(String, ServerServiceConfig)>,
    routes: Seq<HttpRoute>,
) -> bool
    decreases entries.len(),
{
    if entries.len() == 0 {
        routes.len() == 0
    } else if entries.last().1.enabled() && entries.last().1.service_type.is_web() {
        &&& routes.len() > 0
        &&& leads_to(routes.last(), entries.last().0@, entries.last().1)
        &&& routes_of(entries.drop_last(), routes.drop_last())
    } else {
        routes_of(entries.drop_last(), routes)
    }
}

/// Every HTTP service that is switched on has a route, behind those of the services before it.
pub proof fn web_services_have_routes(
    entries: Seq<(String, ServerServiceConfig)>,
    routes: Seq<HttpRoute>,
    i: int,
) -> (k: int)
    requires
        routes_of(entries, routes),
        0 <= i < entries.len(),
        entries[i].1.enabled is None || entries[i].1.enabled == Some(true),
        entries[i].1.service_type == ServiceType::Http || entries[i].1.service_type
            == ServiceType::Https,
    ensures
        0 <= k < routes.len(),
        leads_to(routes[k], entries[i].0@, entries[i].1),
        routes_of(entries.take(i), routes.take(k)),
    decreases entries.len(),
{
    let init = entries.drop_last();
    if i == entries.len() - 1 {
        assert(entries.take(i) == init);
        assert(routes.take(routes.len() - 1) == routes.drop_last());
        routes.len() - 1
    } else {
        assert(init[i] == entries[i]);
        assert(init.take(i) == entries.take(i));
        if entries.last().1.enabled() && entries.last().1.service_type.is_web() {
            let k = web_services_have_routes(init, routes.drop_last(), i);
            assert(routes.drop_last().take(k) == routes.take(k));
            k
        } else {
            web_services_have_routes(init, routes, i)
        }
    }
}

/// Every route leads to an HTTP service that is switched on.
pub proof fn routes_have_web_services(
    entries: Seq<(String, ServerServiceConfig)>,
    routes: Seq<HttpRoute>,
    k: int,
) -> (i: int)
    requires
        routes_of(entries, routes),
        0 <= k < routes.len(),
    ensures
        0 <= i < entries.len(),
        leads_to(routes[k], entries[i].0@, entries[i].1),
        entries[i].1.enabled != Some(false),
        entries[i].1.service_type == ServiceType::Http || entries[i].1.service_type
            == ServiceType::Https,
    decreases entries.len(),
{
    let init = entries.drop_last();
    if entries.last().1.enabled() && entries.last().1.service_type.is_web() {
        if k == routes.len() - 1 {
            entries.len() - 1
        } else {
            let i = routes_have_web_services(init, routes.drop_last(), k);
            assert(init[i] == entries[i]);
            i
        }
    } else {
        let i = routes_have_web_services(init, routes, k);
        assert(init[i] == entries[i]);
        i
    }
}

/// There are as many routes as there are HTTP services that are switched on.
pub proof fn each_web_service_has_one_route(
    entries: Seq<(String, ServerServiceConfig)>,
    routes: Seq<HttpRoute>,
)
    requires
        routes_of(entries, routes),
    ensures
        routes.len() == entries.filter(
            |e: (String, ServerServiceConfig)|
                e.1.enabled != Some(false) && (e.1.service_type == ServiceType::Http
                    || e.1.service_type == ServiceType::Https),
        ).len(),
    decreases entries.len(),
{
    reveal(Seq::filter);
    if entries.len() > 0 {
        if entries.last().1.enabled() && entries.last().1.service_type.is_web() {
            each_web_service_has_one_route(entries.drop_last(), routes.drop_last());
        } else {
            each_web_service_has_one_route(entries.drop_last(), routes);
        }
    }
}

/// The route of a service has the hosts, the locations, the rewrites and the credentials that
/// the service is configured with; what it does not say is empty.
pub proof fn route_has_what_the_service_says(
    route: HttpRoute,
    name: Seq<char>,
    s: ServerServiceConfig,
)
    requires
        leads_to(route, name, s),
    ensures
        route.service_name@ == name,
        s.custom_domains matches Some(d) ==> route.custom_domains@ == d@,
        s.custom_domains is None ==> route.custom_domains@.len() == 0,
        route.subdomain == s.subdomain,
        s.locations matches Some(l) ==> route.locations@ == l@,
        s.locations is None ==> route.locations@.len() == 0,
        route.host_header_rewrite == s.host_header_rewrite,
        route.http_user == s.http_user,
        route.http_password is Some <==> s.http_password is Some,
        s.http_password matches Some(p) ==> route.http_password.unwrap()@ == p@,
        s.request_headers matches Some(m) ==> route.request_headers.entries() == m.entries(),
        s.request_headers is None ==> route.request_headers.entries().len() == 0,
        s.response_headers matches Some(m) ==> route.response_headers.entries() == m.entries(),
        s.response_headers is None ==> route.response_headers.entries().len() == 0,
        route.route_by_http_user == s.route_by_http_user,
{
}

/// Whether a service is found by its HTTP host.
fn is_web(t: ServiceType) -> (r: bool)
    ensures
        r == t.is_web(),
{
    t == ServiceType::Http || t == ServiceType::Https
}

/// The router with which a server starts.
pub fn initial_router(config: &ServerConfig) -> (r: VhostRouter)
    ensures
        r.subdomain_host() == text::opt_text(config.subdomain_host),
        routes_of(config.services.entries(), r.routes()),
{
    let ghost entries = config.services.entries();
    let mut router = VhostRouter::new(text::copy_option(&config.subdomain_host));
    let mut i: usize = 0;
    while i < config.services.len()
        invariant
            entries == config.services.entries(),
            i <= entries.len(),
            router.subdomain_host() == text::opt_text(config.subdomain_host),
            routes_of(entries.take(i as int), router.routes()),
        decreases entries.len() - i,
    {
        let s = config.services.value_at(i);
        let ghost before = router.routes();
        proof {
            assert(entries.take(i + 1).drop_last() == entries.take(i as int));
            assert(entries.take(i + 1).last() == entries[i as int]);
        }
        if s.is_enabled() && is_web(s.service_type) {
            router.add_route(service_route(config.services.name_at(i), s));
            assert(router.routes().drop_last() == before);
        }
        i = i + 1;
    }
    assert(entries.take(i as int) == entries);
    router
}

// ---------- the state of a server ----------

/// What a running server knows.
pub struct ServerState {
    pub services: DigestMap<ServerServiceConfig>,
    pub channels: ChannelTable,
    pub router: VhostRouter,
}

impl ServerState {
    /// Whether both sides of the table of channels speak of the same channels.
    pub open spec fn wf(self) -> bool {
        self.channels@.wf()
    }
}

/// The route of a service that has changed takes the place of those that it had. A service
/// that is not found by its HTTP host changes no route.
pub open spec fn rerouted(
    before: Seq<HttpRoute>,
    after: Seq<HttpRoute>,
    s: ServerServiceConfig,
) -> bool {
    if s.service_type.is_web() {
        &&& after.len() > 0
        &&& after.drop_last() == http_proxy::routes_without(before, s.name@)
        &&& leads_to(after.last(), s.name@, s)
    } else {
        after == before
    }
}

/// What a server knows after a service was added.
pub open spec fn service_added(
    before: ServerState,
    after: ServerState,
    s: ServerServiceConfig,
) -> bool {
    let digest = protocol::name_digest(s.name@);
    &&& after.services@ == before.services@.insert(digest, s)
    &&& after.channels@ == before.channels@.without(digest)
    &&& after.router.subdomain_host() == before.router.subdomain_host()
    &&& rerouted(before.router.routes(), after.router.routes(), s)
}

/// A service that was added is found by its name, without a control channel. If it is found by
/// its HTTP host, one route leads to it and it is the last one.
pub proof fn added_service_is_found(before: ServerState, after: ServerState, s: ServerServiceConfig)
    requires
        before.wf(),
        service_added(before, after, s),
    ensures
        after.services@.dom().contains(protocol::name_digest(s.name@)),
        after.services@[protocol::name_digest(s.name@)] == s,
        after.channels@.of_service(protocol::name_digest(s.name@)) is None,
        s.service_type.is_web() ==> ({
            let routes = after.router.routes();
            &&& routes.len() > 0
            &&& leads_to(routes.last(), s.name@, s)
            &&& forall|i: int|
                0 <= i < routes.len() - 1 ==> (#[trigger] routes[i]).service_name@ != s.name@
        }),
{
    channels::removed_channel_is_gone(before.channels@, protocol::name_digest(s.name@));
    if s.service_type.is_web() {
        let routes = after.router.routes();
        http_proxy::removed_service_has_no_route(before.router.routes(), s.name@);
        assert forall|i: int| 0 <= i < routes.len() - 1 implies (#[trigger] routes[i]).service_name@
            != s.name@ by {
            assert(routes.drop_last()[i] == routes[i]);
        }
    }
}

/// A service that is not found by its HTTP host changes no route when it is added. One that is
/// gets a route behind those of all other services, which keep their order.
pub proof fn added_service_changes_its_routes_alone(
    before: ServerState,
    after: ServerState,
    s: ServerServiceConfig,
)
    requires
        service_added(before, after, s),
    ensures
        s.service_type != ServiceType::Http && s.service_type != ServiceType::Https
            ==> after.router.routes() == before.router.routes(),
        s.service_type == ServiceType::Http || s.service_type == ServiceType::Https
            ==> after.router.routes().len() > 0 && after.router.routes().last().service_name@
            == s.name@ && after.router.routes().drop_last() == before.router.routes().filter(
            |r: HttpRoute| r.service_name@ != s.name@,
        ),
{
    let routes = before.router.routes();
    http_proxy::removal_keeps_other_routes(routes, Seq::empty(), s.name@);
    let name = s.name@;
    assert((|r: HttpRoute| r.service_name@ != name) =~= (|r: HttpRoute| r.service_name@ != s.name@));
}

/// What a server knows after a service was deleted.
pub open spec fn service_deleted(before: ServerState, after: ServerState, name: Seq<char>) -> bool {
    let digest = protocol::name_digest(name);
    &&& after.services@ == before.services@.remove(digest)
    &&& after.channels@ == before.channels@.without(digest)
    &&& after.router.subdomain_host() == before.router.subdomain_host()
    &&& after.router.routes() == http_proxy::routes_without(before.router.routes(), name)
}

/// A change of one service leaves the others as they are: their settings, their control
/// channels and their routes, which go on answering the requests that they answered.
pub proof fn other_services_stay(
    before: ServerState,
    after: ServerState,
    name: Seq<char>,
    s: ServerServiceConfig,
    other: Seq<u8>,
    i: int,
)
    requires
        before.wf(),
        service_deleted(before, after, name) || (service_added(before, after, s) && s.name@
            == name),
        other != protocol::name_digest(name),
        0 <= i < before.router.routes().len(),
        before.router.routes()[i].service_name@ != name,
    ensures
        after.services@.dom().contains(other) <==> before.services@.dom().contains(other),
        before.services@.dom().contains(other) ==> after.services@[other]
            == before.services@[other],
        after.channels@.of_service(other) == before.channels@.of_service(other),
        after.router.subdomain_host() == before.router.subdomain_host(),
        after.router.routes().contains(before.router.routes()[i]),
{
    let routes = before.router.routes();
    channels::other_channels_stay(
        before.channels@,
        protocol::name_digest(name),
        Seq::empty(),
        0,
        other,
        Seq::empty(),
    );
    http_proxy::removal_keeps_other_routes(routes, Seq::empty(), name);
    let kept = http_proxy::routes_without(routes, name);
    assert(kept.contains(routes[i]));
    let k = choose|k: int| 0 <= k < kept.len() && kept[k] == routes[i];
    let now = after.router.routes();
    if service_deleted(before, after, name) {
        assert(now[k] == routes[i]);
    } else if s.service_type.is_web() {
        assert(now.drop_last()[k] == now[k]);
    } else {
        assert(now[i] == routes[i]);
    }
}

/// A service that was deleted is neither found by a client or a visitor, nor has it a control
/// channel, nor does any route lead to it.
pub proof fn deleted_service_is_gone(before: ServerState, after: ServerState, name: Seq<char>)
    requires
        before.wf(),
        service_deleted(before, after, name),
    ensures
        !after.services@.dom().contains(protocol::name_digest(name)),
        after.channels@.of_service(protocol::name_digest(name)) is None,
        forall|i: int|
            0 <= i < after.router.routes().len() ==> (#[trigger] after.router.routes()[i]).service_name@
                != name,
{
    channels::removed_channel_is_gone(before.channels@, protocol::name_digest(name));
    http_proxy::removed_service_has_no_route(before.router.routes(), name);
}

impl ServerState {
    /// Makes the state with which a server starts.
    pub fn new(config: ServerConfig) -> (r: ServerState)
        ensures
            r.services@ == service_table(config.services.entries()),
            r.channels@ == channels::ChannelsView::empty(),
            r.router.subdomain_host() == text::opt_text(config.subdomain_host),
            routes_of(config.services.entries(), r.router.routes()),
            r.wf(),
    {
        let router = initial_router(&config);
        ServerState {
            services: generate_service_hashmap(config.services),
            channels: ChannelTable::new(),
            router,
        }
    }

    /// Takes in a service that is new or has changed. The control channel of the service is
    /// closed: its handle is given back.
    pub fn add_service(&mut self, s: ServerServiceConfig) -> (r: Option<u64>)
        ensures
            service_added(*old(self), *final(self), s),
            r == old(self).channels@.of_service(protocol::name_digest(s.name@)),
            old(self).wf() ==> final(self).wf(),
    {
        let hash = protocol::service_digest(s.name.as_str());
        if is_web(s.service_type) {
            self.router.remove_route(s.name.as_str());
            let ghost rest = self.router.routes();
            let route = service_route(s.name.as_str(), &s);
            self.router.add_route(route);
            assert(self.router.routes().drop_last() == rest);
        }
        self.services.insert(hash, s);
        self.channels.remove1(&hash)
    }

    /// Forgets a service. The control channel of the service is closed: its handle is given
    /// back.
    pub fn delete_service(&mut self, name: &str) -> (r: Option<u64>)
        ensures
            service_deleted(*old(self), *final(self), name@),
            r == old(self).channels@.of_service(protocol::name_digest(name@)),
            old(self).wf() ==> final(self).wf(),
    {
        let hash = protocol::service_digest(name);
        self.services.remove(&hash);
        self.router.remove_route(name);
        self.channels.remove1(&hash)
    }

    /// Takes in a change of the configuration. The handle of the control channel that is
    /// closed, if there is one, is given back. A change of the client is ignored.
    pub fn handle_hot_reload(&mut self, change: ConfigChange) -> (r: Option<u64>)
        ensures
            match change {
                ConfigChange::Server(ServerServiceChange::Add(s)) => service_added(
                    *old(self),
                    *final(self),
                    s,
                ) && r == old(self).channels@.of_service(protocol::name_digest(s.name@)),
                ConfigChange::Server(ServerServiceChange::Delete(name)) => service_deleted(
                    *old(self),
                    *final(self),
                    name@,
                ) && r == old(self).channels@.of_service(protocol::name_digest(name@)),
                ConfigChange::Client(_) => *final(self) == *old(self) && r is None,
            },
            old(self).wf() ==> final(self).wf(),
    {
        match change {
            ConfigChange::Server(ServerServiceChange::Add(s)) => self.add_service(s),
            ConfigChange::Server(ServerServiceChange::Delete(name)) => {
                self.delete_service(name.as_str())
            },
            ConfigChange::Client(_) => None,
        }
    }
}

// ---------- HTTP virtual hosts ----------

/// What the server does with a request on its HTTP port.
#[derive(Debug)]
pub enum VhostAction {
    /// No route matches.
    NotFound,
    /// The credentials are missing or wrong.
    Unauthorized,
    /// No client provides the service at this moment.
    BadGateway,
    /// A data channel is asked for on this control channel, for this service.
    Forward(u64, String),
}

/// What is done with a request once its route is known.
pub open spec fn routed(
    route: HttpRoute,
    headers: Seq<(Seq<char>, Seq<char>)>,
    channels: channels::ChannelsView,
    r: VhostAction,
) -> bool {
    let refused = route.http_user is Some && route.http_password is Some
        && http_proxy::first_credentials(headers) != Some(
        route.http_user.unwrap()@ + ":"@ + route.http_password.unwrap()@,
    );
    let channel = channels.of_service(protocol::name_digest(route.service_name@));
    match r {
        VhostAction::NotFound => false,
        VhostAction::Unauthorized => refused,
        VhostAction::BadGateway => !refused && channel is None,
        VhostAction::Forward(handle, name) => !refused && channel == Some(handle) && name
            == route.service_name,
    }
}

/// What is done with a request.
pub open spec fn vhost_decided(state: ServerState, info: HttpRequestInfo, r: VhostAction) -> bool {
    let routes = state.router.routes();
    let suffix = state.router.subdomain_host();
    let host = text::before_first(info.host@, ':');
    if r is NotFound {
        forall|i: int|
            0 <= i < routes.len() ==> !http_proxy::is_candidate(
                #[trigger] routes[i],
                suffix,
                host,
                info.path@,
            )
    } else {
        exists|i: int|
            #[trigger] http_proxy::is_match(routes, suffix, host, info.path@, i) && routed(
                routes[i],
                http_proxy::pairs(info.headers@),
                state.channels@,
                r,
            )
    }
}

impl ServerState {
    /// Decides on a request on the HTTP port.
    pub fn vhost_action(&self, info: &HttpRequestInfo) -> (r: VhostAction)
        ensures
            vhost_decided(*self, *info, r),
    {
        match self.router.match_route(info.host.as_str(), info.path.as_str()) {
            Some(route) => {
                if let (Some(user), Some(password)) = (&route.http_user, &route.http_password) {
                    if !http_proxy::validate_basic_auth(
                        info.headers.as_slice(),
                        user.as_str(),
                        password.as_str(),
                    ) {
                        return VhostAction::Unauthorized;
                    }
                }
                let digest = protocol::service_digest(route.service_name.as_str());
                match self.channels.get1(&digest) {
                    Some(handle) => VhostAction::Forward(handle, route.service_name.clone()),
                    None => VhostAction::BadGateway,
                }
            },
            None => VhostAction::NotFound,
        }
    }

    /// Decides on the bytes of a request. Where they are no request, the connection is closed
    /// without an answer.
    pub fn vhost_request(&self, buf: &[u8]) -> (r: Result<VhostAction, HttpParseError>)
        ensures
            match r {
                Ok(action) => exists|info: HttpRequestInfo|
                    #[trigger] vhost_decided(*self, info, action) && http_proxy::request_parsed(
                        buf@,
                        Ok(info),
                    ),
                Err(e) => http_proxy::request_parsed(buf@, Err(e)),
            },
    {
        match http_proxy::parse_http_request(buf) {
            Ok(info) => {
                let action = self.vhost_action(&info);
                assert(vhost_decided(*self, info, action));
                Ok(action)
            },
            Err(e) => Err(e),
        }
    }
}

/// A request goes to the service of the route that answers it, on the control channel of that
/// service, where the route asks for no credentials or the request has them. With other
/// credentials it is refused, and without a channel there is no way on.
pub proof fn requests_reach_their_service(
    state: ServerState,
    info: HttpRequestInfo,
    r: VhostAction,
    i: int,
)
    requires
        vhost_decided(state, info, r),
        http_proxy::is_match(
            state.router.routes(),
            state.router.subdomain_host(),
            text::before_first(info.host@, ':'),
            info.path@,
            i,
        ),
    ensures
        ({
            let route = state.router.routes()[i];
            let asked = route.http_user is Some && route.http_password is Some;
            let right = http_proxy::first_credentials(http_proxy::pairs(info.headers@)) == Some(
                route.http_user.unwrap()@ + seq![':'] + route.http_password.unwrap()@,
            );
            let channel = state.channels@.of_service(protocol::name_digest(route.service_name@));
            &&& (!asked || right) && channel is Some ==> r == VhostAction::Forward(
                channel.unwrap(),
                route.service_name,
            )
            &&& (!asked || right) && channel is None ==> r == VhostAction::BadGateway
            &&& asked && !right ==> r == VhostAction::Unauthorized
        }),
{
    reveal_strlit(":");
    assert(":"@ == seq![':']);
    let routes = state.router.routes();
    let suffix = state.router.subdomain_host();
    let host = text::before_first(info.host@, ':');
    if r is NotFound {
        assert(!http_proxy::is_candidate(routes[i], suffix, host, info.path@));
    } else {
        let k = choose|k: int|
            #[trigger] http_proxy::is_match(routes, suffix, host, info.path@, k) && routed(
                routes[k],
                http_proxy::pairs(info.headers@),
                state.channels@,
                r,
            );
        http_proxy::match_is_unique(routes, suffix, host, info.path@, i, k);
    }
}

/// A request is not found only where no route is for its host and its path.
pub proof fn requests_are_not_lost(
    state: ServerState,
    info: HttpRequestInfo,
    r: VhostAction,
    j: int,
    l: int,
)
    requires
        vhost_decided(state, info, r),
        0 <= j < state.router.routes().len(),
        state.router.routes()[j].serves(
            state.router.subdomain_host(),
            text::before_first(info.host@, ':'),
        ),
        ({
            let locations = state.router.routes()[j].locations@;
            locations.len() == 0 || (0 <= l < locations.len() && locations[l]@.len() > 0
                && locations[l]@.is_prefix_of(info.path@))
        }),
    ensures
        r !is NotFound,
{
    http_proxy::some_route_answers(
        state.router.routes(),
        state.router.subdomain_host(),
        text::before_first(info.host@, ':'),
        info.path@,
        j,
        l,
    );
}

// ---------- control channels ----------

/// How the visitors of a service come in.
#[derive(Debug, Clone, Copy, PartialEq, Eq, Structural)]
pub enum PoolPlan {
    /// Over TCP, at the address of the service.
    Tcp,
    /// Over UDP, at the address of the service.
    Udp,
    /// Not at an address of the service: its data channels are held ready.
    Hold,
}

/// The way in which the visitors of a service come in.
pub open spec fn pool_of(s: ServerServiceConfig) -> PoolPlan {
    match s.service_type {
        ServiceType::Tcp | ServiceType::Tcpmux => PoolPlan::Tcp,
        ServiceType::Udp => PoolPlan::Udp,
        ServiceType::Http | ServiceType::Https => if s.bind_addr@.len() > 0 {
            PoolPlan::Tcp
        } else {
            PoolPlan::Hold
        },
        ServiceType::Stcp | ServiceType::Xtcp => PoolPlan::Hold,
        ServiceType::Sudp => if s.bind_addr@.len() > 0 {
            PoolPlan::Udp
        } else {
            PoolPlan::Hold
        },
    }
}

/// What is set up for a new control channel: how many data channels are asked for at once, how
/// visitors come in, and after how many seconds a heartbeat is sent.
pub struct ChannelPlan {
    pub requests: usize,
    pub pool: PoolPlan,
    pub heartbeat: Option<u64>,
}

/// The seconds after which a heartbeat is due; an interval of zero is none.
pub open spec fn heartbeat_after(interval: u64) -> Option<u64> {
    if interval == 0 {
        None
    } else {
        Some(interval)
    }
}

/// Plans a new control channel.
pub fn plan_channel(service: &ServerServiceConfig, heartbeat_interval: u64) -> (r: ChannelPlan)
    ensures
        r == (ChannelPlan {
            requests: service.pool(),
            pool: pool_of(*service),
            heartbeat: heartbeat_after(heartbeat_interval),
        }),
        r.pool == (match service.service_type {
            ServiceType::Tcp | ServiceType::Tcpmux => PoolPlan::Tcp,
            ServiceType::Udp => PoolPlan::Udp,
            ServiceType::Http | ServiceType::Https => if service.bind_addr@.len() == 0 {
                PoolPlan::Hold
            } else {
                PoolPlan::Tcp
            },
            ServiceType::Sudp => if service.bind_addr@.len() == 0 {
                PoolPlan::Hold
            } else {
                PoolPlan::Udp
            },
            ServiceType::Stcp | ServiceType::Xtcp => PoolPlan::Hold,
        }),
        heartbeat_interval == 0 ==> r.heartbeat is None,
        heartbeat_interval > 0 ==> r.heartbeat == Some(heartbeat_interval),
{
    let bound = service.bind_addr.as_str().unicode_len() > 0;
    let pool = match service.service_type {
        ServiceType::Tcp | ServiceType::Tcpmux => PoolPlan::Tcp,
        ServiceType::Udp => PoolPlan::Udp,
        ServiceType::Http | ServiceType::Https => {
            if bound {
                PoolPlan::Tcp
            } else {
                PoolPlan::Hold
            }
        },
        ServiceType::Stcp | ServiceType::Xtcp => PoolPlan::Hold,
        ServiceType::Sudp => {
            if bound {
                PoolPlan::Udp
            } else {
                PoolPlan::Hold
            }
        },
    };
    ChannelPlan {
        requests: service.pool_size(),
        pool,
        heartbeat: if heartbeat_interval == 0 {
            None
        } else {
            Some(heartbeat_interval)
        },
    }
}

/// What happens to a control channel.
#[derive(Debug, Clone, Copy, PartialEq, Eq, Structural)]
pub enum ChannelEvent {
    /// A data channel is asked for.
    DataRequested,
    /// Nobody can ask for data channels any more.
    RequestsClosed,
    /// The time for a heartbeat has come.
    HeartbeatDue,
    /// The channel is to be closed.
    Shutdown,
    /// A command could not be written.
    WriteFailed,
}

/// What the server does on a control channel.
#[derive(Debug, Clone, Copy, PartialEq, Eq, Structural)]
pub enum ChannelAction {
    Send(ControlChannelCmd),
    Stop,
}

/// Decides what to do on a control channel.
pub fn channel_step(event: ChannelEvent) -> (r: ChannelAction)
    ensures
        r == (match event {
            ChannelEvent::DataRequested => ChannelAction::Send(
                ControlChannelCmd::CreateDataChannel,
            ),
            ChannelEvent::HeartbeatDue => ChannelAction::Send(ControlChannelCmd::HeartBeat),
            ChannelEvent::RequestsClosed => ChannelAction::Stop,
            ChannelEvent::Shutdown => ChannelAction::Stop,
            ChannelEvent::WriteFailed => ChannelAction::Stop,
        }),
{
    match event {
        ChannelEvent::DataRequested => ChannelAction::Send(ControlChannelCmd::CreateDataChannel),
        ChannelEvent::HeartbeatDue => ChannelAction::Send(ControlChannelCmd::HeartBeat),
        ChannelEvent::RequestsClosed
        | ChannelEvent::Shutdown
        | ChannelEvent::WriteFailed => ChannelAction::Stop,
    }
}

// ---------- accepting connections ----------

/// What a listener does after it tried to accept a connection.
#[derive(Debug, Clone, Copy, PartialEq, Eq, Structural)]
pub enum AcceptStep {
    /// Serves the connection and starts the waiting times over.
    Serve,
    /// Waits before it tries again.
    Wait,
    /// Tries again at once.
    Again,
    /// Gives up.
    Stop,
}

/// How an attempt to accept a connection ended.
#[derive(Debug, Clone, Copy, PartialEq, Eq, Structural)]
pub enum AcceptOutcome {
    Accepted,
    /// An I/O error; whether there is a waiting time left.
    IoError(bool),
    /// Any other error.
    OtherError,
}

/// Decides how the server goes on after it tried to accept a connection of a client.
pub fn accept_step(outcome: AcceptOutcome) -> (r: AcceptStep)
    ensures
        r == (match outcome {
            AcceptOutcome::Accepted => AcceptStep::Serve,
            AcceptOutcome::IoError(true) => AcceptStep::Wait,
            AcceptOutcome::IoError(false) => AcceptStep::Stop,
            AcceptOutcome::OtherError => AcceptStep::Again,
        }),
{
    match outcome {
        AcceptOutcome::Accepted => AcceptStep::Serve,
        AcceptOutcome::IoError(more) => {
            if more {
                AcceptStep::Wait
            } else {
                AcceptStep::Stop
            }
        },
        AcceptOutcome::OtherError => AcceptStep::Again,
    }
}

/// How an attempt to accept a visitor of a service ended.
#[derive(Debug, Clone, Copy, PartialEq, Eq, Structural)]
pub enum VisitorOutcome {
    /// There is a visitor; whether a data channel for it could be asked for.
    Accepted(bool),
    /// An error; whether there is a waiting time left.
    Failed(bool),
}

/// Decides how the listener of a service goes on after it tried to accept a visitor.
pub fn visitor_step(outcome: VisitorOutcome) -> (r: AcceptStep)
    ensures
        r == (match outcome {
            VisitorOutcome::Accepted(true) => AcceptStep::Serve,
            VisitorOutcome::Failed(true) => AcceptStep::Wait,
            _ => AcceptStep::Stop,
        }),
{
    match outcome {
        VisitorOutcome::Accepted(true) => AcceptStep::Serve,
        VisitorOutcome::Failed(true) => AcceptStep::Wait,
        _ => AcceptStep::Stop,
    }
}

/// What becomes of a request on the HTTP port that leads to a control channel.
#[derive(Debug, Clone, Copy, PartialEq, Eq, Structural)]
pub enum ForwardStep {
    /// A data channel is on its way.
    Done,
    /// The client cannot be reached.
    BadGateway,
}

/// Decides on a request that leads to a control channel, once a data channel was asked for
/// there; `requested` says whether it could be.
pub fn forward_step(requested: bool) -> (r: ForwardStep)
    ensures
        r == (if requested {
            ForwardStep::Done
        } else {
            ForwardStep::BadGateway
        }),
{
    if requested {
        ForwardStep::Done
    } else {
        ForwardStep::BadGateway
    }
}

// ---------- TCP pools ----------

/// Where the pool of a TCP service stands.
#[derive(Debug, Clone, Copy, PartialEq, Eq, Structural)]
pub enum PoolState {
    /// It waits for a visitor.
    Idle,
    /// It has a visitor and waits for a data channel.
    Waiting,
    /// It has a visitor and a data channel, to which it writes the command to start.
    Starting,
    /// The channel could not be used and another one was asked for.
    Replacing,
    Stopped,
}

/// What happens to the pool of a TCP service.
#[derive(Debug, Clone, Copy, PartialEq, Eq, Structural)]
pub enum PoolEvent {
    Visitor,
    /// No more visitors come.
    NoVisitors,
    Channel,
    /// No more data channels come.
    NoChannels,
    /// The command was written, or not.
    Written(bool),
    /// Another channel could be asked for, or not.
    Requested(bool),
}

/// What the pool of a TCP service does.
#[derive(Debug, Clone, Copy, PartialEq, Eq, Structural)]
pub enum PoolAction {
    AwaitVisitor,
    AwaitChannel,
    /// Writes the command to start to the data channel.
    Start(DataChannelCmd),
    /// Joins the visitor and the data channel and awaits the next visitor.
    Join,
    /// Asks for another data channel.
    Request,
    Stop,
}

/// The next state of a pool and what it does. An event that cannot come in a state changes
/// nothing but stops the pool.
pub open spec fn pool_next(state: PoolState, event: PoolEvent) -> (PoolState, PoolAction) {
    match (state, event) {
        (PoolState::Idle, PoolEvent::Visitor) => (PoolState::Waiting, PoolAction::AwaitChannel),
        (PoolState::Waiting, PoolEvent::Channel) => (
            PoolState::Starting,
            PoolAction::Start(DataChannelCmd::StartForwardTcp),
        ),
        (PoolState::Starting, PoolEvent::Written(true)) => (PoolState::Idle, PoolAction::Join),
        (PoolState::Starting, PoolEvent::Written(false)) => (
            PoolState::Replacing,
            PoolAction::Request,
        ),
        (PoolState::Replacing, PoolEvent::Requested(true)) => (
            PoolState::Waiting,
            PoolAction::AwaitChannel,
        ),
        _ => (PoolState::Stopped, PoolAction::Stop),
    }
}

/// Computes [`pool_next`].
pub fn pool_step(state: PoolState, event: PoolEvent) -> (r: (PoolState, PoolAction))
    ensures
        r == pool_next(state, event),
        r.1 == PoolAction::AwaitChannel <==> (state == PoolState::Idle && event
            == PoolEvent::Visitor) || (state == PoolState::Replacing && event
            == PoolEvent::Requested(true)),
        r.1 == PoolAction::Start(DataChannelCmd::StartForwardTcp) <==> state == PoolState::Waiting
            && event == PoolEvent::Channel,
        r.1 == PoolAction::Join <==> state == PoolState::Starting && event == PoolEvent::Written(
            true,
        ),
        r.1 == PoolAction::Request <==> state == PoolState::Starting && event
            == PoolEvent::Written(false),
        r.0 == (match r.1 {
            PoolAction::AwaitVisitor => r.0,
            PoolAction::AwaitChannel => PoolState::Waiting,
            PoolAction::Start(_) => PoolState::Starting,
            PoolAction::Join => PoolState::Idle,
            PoolAction::Request => PoolState::Replacing,
            PoolAction::Stop => PoolState::Stopped,
        }),
        r.1 != PoolAction::AwaitVisitor,
        r.1 is Start ==> r.1 == PoolAction::Start(DataChannelCmd::StartForwardTcp),
{
    match (state, event) {
        (PoolState::Idle, PoolEvent::Visitor) => (PoolState::Waiting, PoolAction::AwaitChannel),
        (PoolState::Waiting, PoolEvent::Channel) => (
            PoolState::Starting,
            PoolAction::Start(DataChannelCmd::StartForwardTcp),
        ),
        (PoolState::Starting, PoolEvent::Written(true)) => (PoolState::Idle, PoolAction::Join),
        (PoolState::Starting, PoolEvent::Written(false)) => (
            PoolState::Replacing,
            PoolAction::Request,
        ),
        (PoolState::Replacing, PoolEvent::Requested(true)) => (
            PoolState::Waiting,
            PoolAction::AwaitChannel,
        ),
        _ => (PoolState::Stopped, PoolAction::Stop),
    }
}

/// The state of a pool after a series of events.
pub open spec fn pool_after(state: PoolState, events: Seq<PoolEvent>) -> PoolState
    decreases events.len(),
{
    if events.len() == 0 {
        state
    } else {
        pool_next(pool_after(state, events.drop_last()), events.last()).0
    }
}

/// How many of the events make a pool act in a certain way.
pub open spec fn pool_count(
    state: PoolState,
    events: Seq<PoolEvent>,
    action: PoolAction,
) -> nat
    decreases events.len(),
{
    if events.len() == 0 {
        0
    } else {
        let rest = pool_count(state, events.drop_last(), action);
        if pool_next(pool_after(state, events.drop_last()), events.last()).1 == action {
            rest + 1
        } else {
            rest
        }
    }
}

/// How many visitors a pool has taken in.
pub open spec fn visitors_in(state: PoolState, events: Seq<PoolEvent>) -> nat
    decreases events.len(),
{
    if events.len() == 0 {
        0
    } else {
        let rest = visitors_in(state, events.drop_last());
        if pool_after(state, events.drop_last()) == PoolState::Idle && events.last()
            == PoolEvent::Visitor {
            rest + 1
        } else {
            rest
        }
    }
}

/// What a pool sees while `n` data channels fail one after the other.
pub open spec fn failed_starts(n: nat) -> Seq<PoolEvent>
    decreases n,
{
    if n == 0 {
        Seq::empty()
    } else {
        failed_starts((n - 1) as nat) + seq![
            PoolEvent::Written(false),
            PoolEvent::Requested(true),
            PoolEvent::Channel,
        ]
    }
}

/// One more event.
proof fn lemma_pool_event(events: Seq<PoolEvent>, e: PoolEvent)
    ensures
        pool_after(PoolState::Idle, events.push(e)) == pool_next(
            pool_after(PoolState::Idle, events),
            e,
        ).0,
        forall|action: PoolAction| #[trigger]
            pool_count(PoolState::Idle, events.push(e), action) == pool_count(
                PoolState::Idle,
                events,
                action,
            ) + (if pool_next(pool_after(PoolState::Idle, events), e).1 == action {
                1nat
            } else {
                0nat
            }),
{
    assert(events.push(e).drop_last() == events);
}

proof fn lemma_failed_starts(start: Seq<PoolEvent>, n: nat)
    requires
        pool_after(PoolState::Idle, start) == PoolState::Starting,
    ensures
        pool_after(PoolState::Idle, start + failed_starts(n)) == PoolState::Starting,
        pool_count(PoolState::Idle, start + failed_starts(n), PoolAction::Join) == pool_count(
            PoolState::Idle,
            start,
            PoolAction::Join,
        ),
        pool_count(PoolState::Idle, start + failed_starts(n), PoolAction::Request) == pool_count(
            PoolState::Idle,
            start,
            PoolAction::Request,
        ) + n,
    decreases n,
{
    if n == 0 {
        assert(start + failed_starts(n) == start);
    } else {
        let m = (n - 1) as nat;
        lemma_failed_starts(start, m);
        let e0 = start + failed_starts(m);
        let e1 = e0.push(PoolEvent::Written(false));
        let e2 = e1.push(PoolEvent::Requested(true));
        let e3 = e2.push(PoolEvent::Channel);
        assert(start + failed_starts(n) == e3);
        lemma_pool_event(e0, PoolEvent::Written(false));
        lemma_pool_event(e1, PoolEvent::Requested(true));
        lemma_pool_event(e2, PoolEvent::Channel);
    }
}

/// A visitor is joined to the first data channel that can be used, however many failed before
/// it; for each that failed another one was asked for. Whatever else happens stops the pool.
pub proof fn visitors_are_joined_in_the_end(start: Seq<PoolEvent>, n: nat)
    requires
        pool_after(PoolState::Idle, start) == PoolState::Idle,
    ensures
        ({
            let events = start + seq![PoolEvent::Visitor, PoolEvent::Channel] + failed_starts(n)
                + seq![PoolEvent::Written(true)];
            &&& pool_after(PoolState::Idle, events) == PoolState::Idle
            &&& pool_count(PoolState::Idle, events, PoolAction::Join) == pool_count(
                PoolState::Idle,
                start,
                PoolAction::Join,
            ) + 1
            &&& pool_count(PoolState::Idle, events, PoolAction::Request) == pool_count(
                PoolState::Idle,
                start,
                PoolAction::Request,
            ) + n
        }),
        pool_next(PoolState::Waiting, PoolEvent::Channel).1 == PoolAction::Start(
            DataChannelCmd::StartForwardTcp,
        ),
        pool_next(PoolState::Idle, PoolEvent::Visitor).1 == PoolAction::AwaitChannel,
        pool_next(PoolState::Replacing, PoolEvent::Requested(true)).1 == PoolAction::AwaitChannel,
        pool_next(PoolState::Idle, PoolEvent::NoVisitors).1 == PoolAction::Stop,
        pool_next(PoolState::Waiting, PoolEvent::NoChannels).1 == PoolAction::Stop,
        pool_next(PoolState::Replacing, PoolEvent::Requested(false)).1 == PoolAction::Stop,
        forall|e: PoolEvent| #[trigger]
            pool_next(PoolState::Stopped, e) == (PoolState::Stopped, PoolAction::Stop),
{
    let e1 = start.push(PoolEvent::Visitor);
    let e2 = e1.push(PoolEvent::Channel);
    lemma_pool_event(start, PoolEvent::Visitor);
    lemma_pool_event(e1, PoolEvent::Channel);
    assert(start + seq![PoolEvent::Visitor, PoolEvent::Channel] == e2);
    lemma_failed_starts(e2, n);
    let e3 = (e2 + failed_starts(n)).push(PoolEvent::Written(true));
    assert(e2 + failed_starts(n) + seq![PoolEvent::Written(true)] == e3);
    lemma_pool_event(e2 + failed_starts(n), PoolEvent::Written(true));
}

/// As long as a pool has not stopped, every visitor that it took in was joined to a data
/// channel, but for the one that it still holds.
pub proof fn pool_loses_no_visitor(events: Seq<PoolEvent>)
    ensures
        ({
            let end = pool_after(PoolState::Idle, events);
            let taken = visitors_in(PoolState::Idle, events);
            let joined = pool_count(PoolState::Idle, events, PoolAction::Join);
            match end {
                PoolState::Idle => taken == joined,
                PoolState::Stopped => true,
                _ => taken == joined + 1,
            }
        }),
    decreases events.len(),
{
    if events.len() > 0 {
        pool_loses_no_visitor(events.drop_last());
    }
}

// ---------- starting a server ----------

/// What can be carried besides plain TCP.
#[derive(Debug, Clone, Copy, PartialEq, Eq)]
pub struct Features {
    pub tls: bool,
    pub noise: bool,
    pub websocket: bool,
}

/// The transport that is used, or the feature that is missing for it.
pub open spec fn usable_transport(t: TransportType, f: Features) -> Result<TransportType, TransportType> {
    match t {
        TransportType::Tcp => Ok(t),
        TransportType::Tls => if f.tls {
            Ok(t)
        } else {
            Err(t)
        },
        TransportType::Noise => if f.noise {
            Ok(t)
        } else {
            Err(t)
        },
        TransportType::Websocket => if f.websocket {
            Ok(t)
        } else {
            Err(t)
        },
        TransportType::Kcp | TransportType::Quic => Err(t),
    }
}

/// Chooses the transport. KCP and QUIC cannot be used yet.
pub fn choose_transport(t: TransportType, f: &Features) -> (r: Result<TransportType, TransportType>)
    ensures
        r == usable_transport(t, *f),
        r is Ok <==> (match t {
            TransportType::Tcp => true,
            TransportType::Tls => f.tls,
            TransportType::Noise => f.noise,
            TransportType::Websocket => f.websocket,
            TransportType::Kcp | TransportType::Quic => false,
        }),
        r matches Ok(u) ==> u == t,
        r matches Err(u) ==> u == t,
{
    let usable = match t {
        TransportType::Tcp => true,
        TransportType::Tls => f.tls,
        TransportType::Noise => f.noise,
        TransportType::Websocket => f.websocket,
        TransportType::Kcp | TransportType::Quic => false,
    };
    if usable {
        Ok(t)
    } else {
        Err(t)
    }
}

/// The server part of a configuration. Without it there is an error with this message.
pub fn server_part(config: Config) -> (r: Result<ServerConfig, String>)
    ensures
        match r {
            Ok(s) => config.server == Some(s),
            Err(e) => config.server is None && e@
                == "Try to run as a server, but the configuration is missing. Please add the `[server]` block"@,
        },
{
    match config.server {
        Some(s) => Ok(s),
        None => Err(
            "Try to run as a server, but the configuration is missing. Please add the `[server]` block".to_string(),
        ),
    }
}

/// An address and a port, with a colon between them.
pub open spec fn address_text(addr: Seq<char>, port: u16) -> Seq<char> {
    addr + ":"@ + text::decimal(port as nat)
}

/// The address and the port can be read back from a text of both.
pub proof fn address_and_port_are_read_back(addr: Seq<char>, port: u16)
    ensures
        addr.is_prefix_of(address_text(addr, port)),
        text::after_last(address_text(addr, port), ':') == text::decimal(port as nat),
        text::port_number(text::after_last(address_text(addr, port), ':')) == Some(port),
        address_text(addr, port).len() == addr.len() + 1 + text::decimal(port as nat).len(),
{
    reveal_strlit(":");
    assert(":"@ == seq![':']);
    let d = text::decimal(port as nat);
    text::decimal_reads_back(port as nat);
    assert(!d.contains(':')) by {
        if d.contains(':') {
            let i = choose|i: int| 0 <= i < d.len() && d[i] == ':';
            assert(text::is_digit(d[i]));
        }
    }
    text::parts_are_found(d, ':', addr);
    assert(address_text(addr, port).take(addr.len() as int) == addr);
}

/// Writes an address and a port.
fn join_address(addr: &str, port: u16) -> (r: String)
    ensures
        r@ == address_text(addr@, port),
{
    let mut out = addr.to_string();
    out.append(":");
    text::push_decimal(&mut out, port as u64);
    out
}

/// Where the dashboard listens.
pub fn dashboard_address(config: &WebServerConfig) -> (r: String)
    ensures
        r@ == address_text(config.addr@, config.port),
{
    join_address(config.addr.as_str(), config.port)
}

/// What a server listens on besides its own address.
pub struct ListenPlan {
    /// The address of the dashboard.
    pub dashboard: Option<String>,
    /// The address of the HTTP virtual hosts.
    pub vhost_http: Option<String>,
}

/// Plans what a server listens on.
pub fn plan_listeners(config: &ServerConfig) -> (r: ListenPlan)
    ensures
        text::opt_text(r.dashboard) == (match config.web_server {
            Some(w) => Some(address_text(w.addr@, w.port)),
            None => None,
        }),
        text::opt_text(r.vhost_http) == (match config.vhost_http_port {
            Some(p) => Some(address_text("0.0.0.0"@, p)),
            None => None,
        }),
{
    ListenPlan {
        dashboard: match &config.web_server {
            Some(w) => Some(dashboard_address(w)),
            None => None,
        },
        vhost_http: match config.vhost_http_port {
            Some(p) => Some(join_address("0.0.0.0", p)),
            None => None,
        },
    }
}

} // verus!
