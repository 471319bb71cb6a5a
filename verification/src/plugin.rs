//! Plugins: what stands in for a local service, and what the server asks over HTTP.

use vstd::prelude::*;

use crate::config::{ClientPluginConfig, MaskedString, ServerPluginConfig};
use crate::masked;
use crate::text;

verus! {

/// A plugin of the client. It takes the place of a local service.
pub trait ClientPlugin: Send + Sync {
    /// The name of the plugin.
    spec fn label(&self) -> Seq<char>;

    /// The type of the plugin.
    spec fn kind(&self) -> Seq<char>;

    /// The name of the plugin.
    fn name(&self) -> (r: &str)
        ensures
            r@ == self.label(),
    ;

    /// The type of the plugin, as the configuration has it.
    fn plugin_type(&self) -> (r: &str)
        ensures
            r@ == self.kind(),
    ;
}

/// Copies the text of an optional secret.
fn copy_secret(s: &Option<MaskedString>) -> (r: Option<String>)
    ensures
        text::opt_text(r) == masked::opt_secret(*s),
{
    match s {
        Some(s) => Some(s.as_str().to_string()),
        None => None,
    }
}

/// Copies an optional text, or what stands in for it.
fn copy_or(s: &Option<String>, other: &str) -> (r: String)
    ensures
        r@ == text::text_or(*s, other@),
{
    match s {
        Some(s) => s.clone(),
        None => other.to_string(),
    }
}

/// Serves as an HTTP proxy.
pub struct HttpProxyPlugin {
    pub http_user: Option<String>,
    pub http_password: Option<String>,
}

impl HttpProxyPlugin {
    /// Whether this is the plugin that is configured.
    pub open spec fn made_from(&self, config: ClientPluginConfig) -> bool {
        &&& self.http_user == config.http_user
        &&& text::opt_text(self.http_password) == masked::opt_secret(config.http_password)
    }

    /// Makes the plugin that is configured.
    pub fn new(config: &ClientPluginConfig) -> (r: Self)
        ensures
            r.made_from(*config),
            r.http_user == config.http_user,
            config.http_password matches Some(s) ==> (r.http_password matches Some(t) && t@ == s@),
            config.http_password is None ==> r.http_password is None,
    {
        HttpProxyPlugin {
            http_user: text::copy_option(&config.http_user),
            http_password: copy_secret(&config.http_password),
        }
    }
}

impl ClientPlugin for HttpProxyPlugin {
    open spec fn label(&self) -> Seq<char> {
        "http_proxy"@
    }

    open spec fn kind(&self) -> Seq<char> {
        "http_proxy"@
    }

    fn name(&self) -> (r: &str) {
        "http_proxy"
    }

    fn plugin_type(&self) -> (r: &str) {
        "http_proxy"
    }
}

/// Serves as a SOCKS5 proxy.
pub struct Socks5Plugin {
    pub username: Option<String>,
    pub password: Option<String>,
}

impl Socks5Plugin {
    /// Whether this is the plugin that is configured.
    pub open spec fn made_from(&self, config: ClientPluginConfig) -> bool {
        &&& self.username == config.http_user
        &&& text::opt_text(self.password) == masked::opt_secret(config.http_password)
    }

    /// Makes the plugin that is configured.
    pub fn new(config: &ClientPluginConfig) -> (r: Self)
        ensures
            r.made_from(*config),
            r.username == config.http_user,
            config.http_password matches Some(s) ==> (r.password matches Some(t) && t@ == s@),
            config.http_password is None ==> r.password is None,
    {
        Socks5Plugin {
            username: text::copy_option(&config.http_user),
            password: copy_secret(&config.http_password),
        }
    }
}

impl ClientPlugin for Socks5Plugin {
    open spec fn label(&self) -> Seq<char> {
        "socks5"@
    }

    open spec fn kind(&self) -> Seq<char> {
        "socks5"@
    }

    fn name(&self) -> (r: &str) {
        "socks5"
    }

    fn plugin_type(&self) -> (r: &str) {
        "socks5"
    }
}

/// Serves files.
pub struct StaticFilePlugin {
    pub local_path: String,
    pub strip_prefix: Option<String>,
    pub http_user: Option<String>,
    pub http_password: Option<String>,
}

impl StaticFilePlugin {
    /// Whether this is the plugin that is configured.
    pub open spec fn made_from(&self, config: ClientPluginConfig) -> bool {
        &&& self.local_path@ == text::text_or(config.local_path, "."@)
        &&& self.strip_prefix == config.strip_prefix
        &&& self.http_user == config.http_user
        &&& text::opt_text(self.http_password) == masked::opt_secret(config.http_password)
    }

    /// Makes the plugin that is configured.
    pub fn new(config: &ClientPluginConfig) -> (r: Self)
        ensures
            r.made_from(*config),
            config.local_path matches Some(s) ==> r.local_path@ == s@,
            config.local_path is None ==> r.local_path@ == "."@,
            r.strip_prefix == config.strip_prefix,
            r.http_user == config.http_user,
            config.http_password matches Some(s) ==> (r.http_password matches Some(t) && t@ == s@),
            config.http_password is None ==> r.http_password is None,
    {
        StaticFilePlugin {
            local_path: copy_or(&config.local_path, "."),
            strip_prefix: text::copy_option(&config.strip_prefix),
            http_user: text::copy_option(&config.http_user),
            http_password: copy_secret(&config.http_password),
        }
    }
}

impl ClientPlugin for StaticFilePlugin {
    open spec fn label(&self) -> Seq<char> {
        "static_file"@
    }

    open spec fn kind(&self) -> Seq<char> {
        "static_file"@
    }

    fn name(&self) -> (r: &str) {
        "static_file"
    }

    fn plugin_type(&self) -> (r: &str) {
        "static_file"
    }
}

/// Takes HTTP and hands on HTTPS.
pub struct Http2HttpsPlugin {
    pub local_addr: String,
    pub host_header_rewrite: Option<String>,
}

impl Http2HttpsPlugin {
    /// Whether this is the plugin that is configured.
    pub open spec fn made_from(&self, config: ClientPluginConfig) -> bool {
        &&& self.local_addr@ == text::text_or(config.local_addr, "127.0.0.1:443"@)
        &&& self.host_header_rewrite == config.host_header_rewrite
    }

    /// Makes the plugin that is configured.
    pub fn new(config: &ClientPluginConfig) -> (r: Self)
        ensures
            r.made_from(*config),
            config.local_addr matches Some(s) ==> r.local_addr@ == s@,
            config.local_addr is None ==> r.local_addr@ == "127.0.0.1:443"@,
            r.host_header_rewrite == config.host_header_rewrite,
    {
        Http2HttpsPlugin {
            local_addr: copy_or(&config.local_addr, "127.0.0.1:443"),
            host_header_rewrite: text::copy_option(&config.host_header_rewrite),
        }
    }
}

impl ClientPlugin for Http2HttpsPlugin {
    open spec fn label(&self) -> Seq<char> {
        "http2https"@
    }

    open spec fn kind(&self) -> Seq<char> {
        "http2https"@
    }

    fn name(&self) -> (r: &str) {
        "http2https"
    }

    fn plugin_type(&self) -> (r: &str) {
        "http2https"
    }
}

/// Takes HTTPS and hands on HTTP.
pub struct Https2HttpPlugin {
    pub local_addr: String,
    pub host_header_rewrite: Option<String>,
    pub crt_path: Option<String>,
    pub key_path: Option<String>,
}

impl Https2HttpPlugin {
    /// Whether this is the plugin that is configured.
    pub open spec fn made_from(&self, config: ClientPluginConfig) -> bool {
        &&& self.local_addr@ == text::text_or(config.local_addr, "127.0.0.1:80"@)
        &&& self.host_header_rewrite == config.host_header_rewrite
        &&& self.crt_path == config.crt_path
        &&& self.key_path == config.key_path
    }

    /// Makes the plugin that is configured.
    pub fn new(config: &ClientPluginConfig) -> (r: Self)
        ensures
            r.made_from(*config),
            config.local_addr matches Some(s) ==> r.local_addr@ == s@,
            config.local_addr is None ==> r.local_addr@ == "127.0.0.1:80"@,
            r.host_header_rewrite == config.host_header_rewrite,
            r.crt_path == config.crt_path,
            r.key_path == config.key_path,
    {
        Https2HttpPlugin {
            local_addr: copy_or(&config.local_addr, "127.0.0.1:80"),
            host_header_rewrite: text::copy_option(&config.host_header_rewrite),
            crt_path: text::copy_option(&config.crt_path),
            key_path: text::copy_option(&config.key_path),
        }
    }
}

impl ClientPlugin for Https2HttpPlugin {
    open spec fn label(&self) -> Seq<char> {
        "https2http"@
    }

    open spec fn kind(&self) -> Seq<char> {
        "https2http"@
    }

    fn name(&self) -> (r: &str) {
        "https2http"
    }

    fn plugin_type(&self) -> (r: &str) {
        "https2http"
    }
}

/// Takes HTTP and hands on HTTP.
pub struct Http2HttpPlugin {
    pub local_addr: String,
    pub host_header_rewrite: Option<String>,
}

impl Http2HttpPlugin {
    /// Whether this is the plugin that is configured.
    pub open spec fn made_from(&self, config: ClientPluginConfig) -> bool {
        &&& self.local_addr@ == text::text_or(config.local_addr, "127.0.0.1:80"@)
        &&& self.host_header_rewrite == config.host_header_rewrite
    }

    /// Makes the plugin that is configured.
    pub fn new(config: &ClientPluginConfig) -> (r: Self)
        ensures
            r.made_from(*config),
            config.local_addr matches Some(s) ==> r.local_addr@ == s@,
            config.local_addr is None ==> r.local_addr@ == "127.0.0.1:80"@,
            r.host_header_rewrite == config.host_header_rewrite,
    {
        Http2HttpPlugin {
            local_addr: copy_or(&config.local_addr, "127.0.0.1:80"),
            host_header_rewrite: text::copy_option(&config.host_header_rewrite),
        }
    }
}

impl ClientPlugin for Http2HttpPlugin {
    open spec fn label(&self) -> Seq<char> {
        "http2http"@
    }

    open spec fn kind(&self) -> Seq<char> {
        "http2http"@
    }

    fn name(&self) -> (r: &str) {
        "http2http"
    }

    fn plugin_type(&self) -> (r: &str) {
        "http2http"
    }
}

/// Takes HTTPS and hands on HTTPS.
pub struct Https2HttpsPlugin {
    pub local_addr: String,
    pub host_header_rewrite: Option<String>,
}

impl Https2HttpsPlugin {
    /// Whether this is the plugin that is configured.
    pub open spec fn made_from(&self, config: ClientPluginConfig) -> bool {
        &&& self.local_addr@ == text::text_or(config.local_addr, "127.0.0.1:443"@)
        &&& self.host_header_rewrite == config.host_header_rewrite
    }

    /// Makes the plugin that is configured.
    pub fn new(config: &ClientPluginConfig) -> (r: Self)
        ensures
            r.made_from(*config),
            config.local_addr matches Some(s) ==> r.local_addr@ == s@,
            config.local_addr is None ==> r.local_addr@ == "127.0.0.1:443"@,
            r.host_header_rewrite == config.host_header_rewrite,
    {
        Https2HttpsPlugin {
            local_addr: copy_or(&config.local_addr, "127.0.0.1:443"),
            host_header_rewrite: text::copy_option(&config.host_header_rewrite),
        }
    }
}

impl ClientPlugin for Https2HttpsPlugin {
    open spec fn label(&self) -> Seq<char> {
        "https2https"@
    }

    open spec fn kind(&self) -> Seq<char> {
        "https2https"@
    }

    fn name(&self) -> (r: &str) {
        "https2https"
    }

    fn plugin_type(&self) -> (r: &str) {
        "https2https"
    }
}

/// Takes TLS and hands on what is inside.
pub struct Tls2RawPlugin {
    pub local_addr: String,
}

impl Tls2RawPlugin {
    /// Whether this is the plugin that is configured.
    pub open spec fn made_from(&self, config: ClientPluginConfig) -> bool {
        &&& self.local_addr@ == text::text_or(config.local_addr, "127.0.0.1:0"@)
    }

    /// Makes the plugin that is configured.
    pub fn new(config: &ClientPluginConfig) -> (r: Self)
        ensures
            r.made_from(*config),
            config.local_addr matches Some(s) ==> r.local_addr@ == s@,
            config.local_addr is None ==> r.local_addr@ == "127.0.0.1:0"@,
    {
        Tls2RawPlugin {
            local_addr: copy_or(&config.local_addr, "127.0.0.1:0"),
        }
    }
}

impl ClientPlugin for Tls2RawPlugin {
    open spec fn label(&self) -> Seq<char> {
        "tls2raw"@
    }

    open spec fn kind(&self) -> Seq<char> {
        "tls2raw"@
    }

    fn name(&self) -> (r: &str) {
        "tls2raw"
    }

    fn plugin_type(&self) -> (r: &str) {
        "tls2raw"
    }
}

/// Hands on to a Unix domain socket.
pub struct UnixDomainSocketPlugin {
    pub unix_path: String,
}

impl UnixDomainSocketPlugin {
    /// Whether this is the plugin that is configured.
    pub open spec fn made_from(&self, config: ClientPluginConfig) -> bool {
        &&& self.unix_path@ == text::text_or(config.unix_path, "/tmp/chagle.sock"@)
    }

    /// Makes the plugin that is configured.
    pub fn new(config: &ClientPluginConfig) -> (r: Self)
        ensures
            r.made_from(*config),
            config.unix_path matches Some(s) ==> r.unix_path@ == s@,
            config.unix_path is None ==> r.unix_path@ == "/tmp/chagle.sock"@,
    {
        UnixDomainSocketPlugin {
            unix_path: copy_or(&config.unix_path, "/tmp/chagle.sock"),
        }
    }
}

impl ClientPlugin for UnixDomainSocketPlugin {
    open spec fn label(&self) -> Seq<char> {
        "unix_domain_socket"@
    }

    open spec fn kind(&self) -> Seq<char> {
        "unix_domain_socket"@
    }

    fn name(&self) -> (r: &str) {
        "unix_domain_socket"
    }

    fn plugin_type(&self) -> (r: &str) {
        "unix_domain_socket"
    }
}

/// Any of the plugins.
pub enum AnyPlugin {
    HttpProxy(HttpProxyPlugin),
    Socks5(Socks5Plugin),
    StaticFile(StaticFilePlugin),
    Http2Https(Http2HttpsPlugin),
    Https2Http(Https2HttpPlugin),
    Http2Http(Http2HttpPlugin),
    Https2Https(Https2HttpsPlugin),
    Tls2Raw(Tls2RawPlugin),
    UnixDomainSocket(UnixDomainSocketPlugin),
}

impl AnyPlugin {
    /// Whether this is the plugin that is configured.
    pub open spec fn made_from(&self, config: ClientPluginConfig) -> bool {
        match self {
            AnyPlugin::HttpProxy(p) => p.made_from(config),
            AnyPlugin::Socks5(p) => p.made_from(config),
            AnyPlugin::StaticFile(p) => p.made_from(config),
            AnyPlugin::Http2Https(p) => p.made_from(config),
            AnyPlugin::Https2Http(p) => p.made_from(config),
            AnyPlugin::Http2Http(p) => p.made_from(config),
            AnyPlugin::Https2Https(p) => p.made_from(config),
            AnyPlugin::Tls2Raw(p) => p.made_from(config),
            AnyPlugin::UnixDomainSocket(p) => p.made_from(config),
        }
    }
}

impl ClientPlugin for AnyPlugin {
    open spec fn label(&self) -> Seq<char> {
        match self {
            AnyPlugin::HttpProxy(p) => p.label(),
            AnyPlugin::Socks5(p) => p.label(),
            AnyPlugin::StaticFile(p) => p.label(),
            AnyPlugin::Http2Https(p) => p.label(),
            AnyPlugin::Https2Http(p) => p.label(),
            AnyPlugin::Http2Http(p) => p.label(),
            AnyPlugin::Https2Https(p) => p.label(),
            AnyPlugin::Tls2Raw(p) => p.label(),
            AnyPlugin::UnixDomainSocket(p) => p.label(),
        }
    }

    open spec fn kind(&self) -> Seq<char> {
        match self {
            AnyPlugin::HttpProxy(p) => p.kind(),
            AnyPlugin::Socks5(p) => p.kind(),
            AnyPlugin::StaticFile(p) => p.kind(),
            AnyPlugin::Http2Https(p) => p.kind(),
            AnyPlugin::Https2Http(p) => p.kind(),
            AnyPlugin::Http2Http(p) => p.kind(),
            AnyPlugin::Https2Https(p) => p.kind(),
            AnyPlugin::Tls2Raw(p) => p.kind(),
            AnyPlugin::UnixDomainSocket(p) => p.kind(),
        }
    }

    fn name(&self) -> (r: &str) {
        match self {
            AnyPlugin::HttpProxy(p) => p.name(),
            AnyPlugin::Socks5(p) => p.name(),
            AnyPlugin::StaticFile(p) => p.name(),
            AnyPlugin::Http2Https(p) => p.name(),
            AnyPlugin::Https2Http(p) => p.name(),
            AnyPlugin::Http2Http(p) => p.name(),
            AnyPlugin::Https2Https(p) => p.name(),
            AnyPlugin::Tls2Raw(p) => p.name(),
            AnyPlugin::UnixDomainSocket(p) => p.name(),
        }
    }

    fn plugin_type(&self) -> (r: &str) {
        match self {
            AnyPlugin::HttpProxy(p) => p.plugin_type(),
            AnyPlugin::Socks5(p) => p.plugin_type(),
            AnyPlugin::StaticFile(p) => p.plugin_type(),
            AnyPlugin::Http2Https(p) => p.plugin_type(),
            AnyPlugin::Https2Http(p) => p.plugin_type(),
            AnyPlugin::Http2Http(p) => p.plugin_type(),
            AnyPlugin::Https2Https(p) => p.plugin_type(),
            AnyPlugin::Tls2Raw(p) => p.plugin_type(),
            AnyPlugin::UnixDomainSocket(p) => p.plugin_type(),
        }
    }
}

/// Whether there is a plugin of this type.
pub open spec fn is_plugin_type(t: Seq<char>) -> bool {
    ||| t == "http_proxy"@
    ||| t == "socks5"@
    ||| t == "static_file"@
    ||| t == "http2https"@
    ||| t == "https2http"@
    ||| t == "http2http"@
    ||| t == "https2https"@
    ||| t == "tls2raw"@
    ||| t == "unix_domain_socket"@
}

/// The types of the plugins differ.
proof fn plugins_have_different_types()
    ensures
        "http_proxy"@ != "socks5"@,
        "http_proxy"@ != "static_file"@,
        "http_proxy"@ != "http2https"@,
        "http_proxy"@ != "https2http"@,
        "http_proxy"@ != "http2http"@,
        "http_proxy"@ != "https2https"@,
        "http_proxy"@ != "tls2raw"@,
        "http_proxy"@ != "unix_domain_socket"@,
        "socks5"@ != "static_file"@,
        "socks5"@ != "http2https"@,
        "socks5"@ != "https2http"@,
        "socks5"@ != "http2http"@,
        "socks5"@ != "https2https"@,
        "socks5"@ != "tls2raw"@,
        "socks5"@ != "unix_domain_socket"@,
        "static_file"@ != "http2https"@,
        "static_file"@ != "https2http"@,
        "static_file"@ != "http2http"@,
        "static_file"@ != "https2https"@,
        "static_file"@ != "tls2raw"@,
        "static_file"@ != "unix_domain_socket"@,
        "http2https"@ != "https2http"@,
        "http2https"@ != "http2http"@,
        "http2https"@ != "https2https"@,
        "http2https"@ != "tls2raw"@,
        "http2https"@ != "unix_domain_socket"@,
        "https2http"@ != "http2http"@,
        "https2http"@ != "https2https"@,
        "https2http"@ != "tls2raw"@,
        "https2http"@ != "unix_domain_socket"@,
        "http2http"@ != "https2https"@,
        "http2http"@ != "tls2raw"@,
        "http2http"@ != "unix_domain_socket"@,
        "https2https"@ != "tls2raw"@,
        "https2https"@ != "unix_domain_socket"@,
        "tls2raw"@ != "unix_domain_socket"@,
{
    reveal_strlit("http_proxy");
    reveal_strlit("socks5");
    reveal_strlit("static_file");
    reveal_strlit("http2https");
    reveal_strlit("https2http");
    reveal_strlit("http2http");
    reveal_strlit("https2https");
    reveal_strlit("tls2raw");
    reveal_strlit("unix_domain_socket");
    assert("http_proxy"@.len() == 10);
    assert("socks5"@.len() == 6);
    assert("static_file"@.len() == 11);
    assert("http2https"@.len() == 10);
    assert("https2http"@.len() == 10);
    assert("http2http"@.len() == 9);
    assert("https2https"@.len() == 11);
    assert("tls2raw"@.len() == 7);
    assert("unix_domain_socket"@.len() == 18);
    assert("http_proxy"@[4] == '_' && "http2https"@[4] == '2');
    assert("http_proxy"@[4] == '_' && "https2http"@[4] == 's');
    assert("static_file"@[0] == 's' && "https2https"@[0] == 'h');
    assert("http2https"@[4] == '2' && "https2http"@[4] == 's');
}

/// Makes the plugin that a configuration names. An unknown type is an error with this message.
pub fn create_plugin(config: &ClientPluginConfig) -> (r: Result<AnyPlugin, String>)
    ensures
        match r {
            Ok(p) => is_plugin_type(config.plugin_type@) && p.kind() == config.plugin_type@
                && p.label() == config.plugin_type@ && p.made_from(*config),
            Err(e) => !is_plugin_type(config.plugin_type@) && e@ == "Unknown plugin type: "@
                + config.plugin_type@,
        },
        config.plugin_type@ == "http_proxy"@ <==> (r matches Ok(p) && p is HttpProxy),
        config.plugin_type@ == "socks5"@ <==> (r matches Ok(p) && p is Socks5),
        config.plugin_type@ == "static_file"@ <==> (r matches Ok(p) && p is StaticFile),
        config.plugin_type@ == "http2https"@ <==> (r matches Ok(p) && p is Http2Https),
        config.plugin_type@ == "https2http"@ <==> (r matches Ok(p) && p is Https2Http),
        config.plugin_type@ == "http2http"@ <==> (r matches Ok(p) && p is Http2Http),
        config.plugin_type@ == "https2https"@ <==> (r matches Ok(p) && p is Https2Https),
        config.plugin_type@ == "tls2raw"@ <==> (r matches Ok(p) && p is Tls2Raw),
        config.plugin_type@ == "unix_domain_socket"@ <==> (r matches Ok(p) && p is UnixDomainSocket),
{
    proof {
        plugins_have_different_types();
    }
    let t = config.plugin_type.as_str();
    if text::str_eq(t, "http_proxy") {
        Ok(AnyPlugin::HttpProxy(HttpProxyPlugin::new(config)))
    } else if text::str_eq(t, "socks5") {
        Ok(AnyPlugin::Socks5(Socks5Plugin::new(config)))
    } else if text::str_eq(t, "static_file") {
        Ok(AnyPlugin::StaticFile(StaticFilePlugin::new(config)))
    } else if text::str_eq(t, "http2https") {
        Ok(AnyPlugin::Http2Https(Http2HttpsPlugin::new(config)))
    } else if text::str_eq(t, "https2http") {
        Ok(AnyPlugin::Https2Http(Https2HttpPlugin::new(config)))
    } else if text::str_eq(t, "http2http") {
        Ok(AnyPlugin::Http2Http(Http2HttpPlugin::new(config)))
    } else if text::str_eq(t, "https2https") {
        Ok(AnyPlugin::Https2Https(Https2HttpsPlugin::new(config)))
    } else if text::str_eq(t, "tls2raw") {
        Ok(AnyPlugin::Tls2Raw(Tls2RawPlugin::new(config)))
    } else if text::str_eq(t, "unix_domain_socket") {
        Ok(AnyPlugin::UnixDomainSocket(UnixDomainSocketPlugin::new(config)))
    } else {
        let mut e = "Unknown plugin type: ".to_string();
        e.append(t);
        Err(e)
    }
}

// ---------- plugins of the server ----------

/// What a plugin of the server can be asked about.
#[derive(Debug, Clone, Copy, PartialEq, Eq, Structural)]
pub enum PluginOp {
    Login,
    NewProxy,
    CloseProxy,
    Ping,
    NewWorkConn,
    NewUserConn,
}

impl PluginOp {
    /// The name of the operation.
    pub open spec fn text(self) -> Seq<char> {
        match self {
            PluginOp::Login => "Login"@,
            PluginOp::NewProxy => "NewProxy"@,
            PluginOp::CloseProxy => "CloseProxy"@,
            PluginOp::Ping => "Ping"@,
            PluginOp::NewWorkConn => "NewWorkConn"@,
            PluginOp::NewUserConn => "NewUserConn"@,
        }
    }

    /// The operation that has a name.
    pub fn from_str(s: &str) -> (r: Option<Self>)
        ensures
            match r {
                Some(op) => op.text() == s@,
                None => forall|op: PluginOp| #[trigger] op.text() != s@,
            },
            s@ == "Login"@ <==> r == Some(PluginOp::Login),
            s@ == "NewProxy"@ <==> r == Some(PluginOp::NewProxy),
            s@ == "CloseProxy"@ <==> r == Some(PluginOp::CloseProxy),
            s@ == "Ping"@ <==> r == Some(PluginOp::Ping),
            s@ == "NewWorkConn"@ <==> r == Some(PluginOp::NewWorkConn),
            s@ == "NewUserConn"@ <==> r == Some(PluginOp::NewUserConn),
    {
        proof {
            reveal_strlit("Login");
            reveal_strlit("NewProxy");
            reveal_strlit("CloseProxy");
            reveal_strlit("Ping");
            reveal_strlit("NewWorkConn");
            reveal_strlit("NewUserConn");
            assert("Login"@.len() == 5 && "NewProxy"@.len() == 8 && "CloseProxy"@.len() == 10);
            assert("Ping"@.len() == 4 && "NewWorkConn"@.len() == 11 && "NewUserConn"@.len() == 11);
            assert("NewWorkConn"@[3] == 'W');
            assert("NewUserConn"@[3] == 'U');
        }
        if text::str_eq(s, "Login") {
            Some(PluginOp::Login)
        } else if text::str_eq(s, "NewProxy") {
            Some(PluginOp::NewProxy)
        } else if text::str_eq(s, "CloseProxy") {
            Some(PluginOp::CloseProxy)
        } else if text::str_eq(s, "Ping") {
            Some(PluginOp::Ping)
        } else if text::str_eq(s, "NewWorkConn") {
            Some(PluginOp::NewWorkConn)
        } else if text::str_eq(s, "NewUserConn") {
            Some(PluginOp::NewUserConn)
        } else {
            None
        }
    }
}

/// No two operations have the same name.
pub proof fn operations_have_different_names(a: PluginOp, b: PluginOp)
    requires
        a.text() == b.text(),
    ensures
        a == b,
{
    reveal_strlit("Login");
    reveal_strlit("NewProxy");
    reveal_strlit("CloseProxy");
    reveal_strlit("Ping");
    reveal_strlit("NewWorkConn");
    reveal_strlit("NewUserConn");
    assert("Login"@.len() == 5 && "NewProxy"@.len() == 8 && "CloseProxy"@.len() == 10);
    assert("Ping"@.len() == 4 && "NewWorkConn"@.len() == 11 && "NewUserConn"@.len() == 11);
    assert("NewWorkConn"@[3] == 'W');
    assert("NewUserConn"@[3] == 'U');
}

/// A plugin that the server asks over HTTP.
#[derive(Debug)]
pub struct ServerPlugin {
    pub name: String,
    pub addr: String,
    pub path: String,
    pub ops: Vec<String>,
    pub tls_verify: bool,
}

/// The request that asks a plugin.
pub open spec fn plugin_request_text(plugin: ServerPlugin, body: Seq<char>) -> Seq<char> {
    "POST "@ + plugin.path@ + " HTTP/1.1\r\nHost: "@ + plugin.addr@
        + "\r\nContent-Type: application/json\r\nContent-Length: "@ + text::decimal(
        vstd::utf8::encode_utf8(body).len(),
    ) + "\r\nConnection: close\r\n\r\n"@ + body
}

/// What follows the first empty line of an answer, if `i` is where that line begins.
pub open spec fn body_from(answer: Seq<char>, i: int) -> Seq<char> {
    answer.skip(i + 4)
}

impl ServerPlugin {
    /// Makes the plugin that is configured.
    pub fn new(config: &ServerPluginConfig) -> (r: Self)
        ensures
            r.name == config.name,
            r.addr == config.addr,
            r.path == config.path,
            r.ops@ == config.ops@,
            r.tls_verify == config.tls_verify,
    {
        ServerPlugin {
            name: config.name.clone(),
            addr: config.addr.clone(),
            path: config.path.clone(),
            ops: text::copy_list(&config.ops),
            tls_verify: config.tls_verify,
        }
    }

    /// Whether the plugin is to be asked about an operation.
    pub fn supports_op(&self, op: &str) -> (r: bool)
        ensures
            r == exists|i: int| 0 <= i < self.ops@.len() && (#[trigger] self.ops@[i])@ == op@,
    {
        text::list_contains(&self.ops, op)
    }

    /// Writes the request that asks the plugin, around the body of it.
    pub fn request(&self, body: &str) -> (r: String)
        ensures
            r@ == plugin_request_text(*self, body@),
            r@ == "POST "@ + self.path@ + " HTTP/1.1\r\nHost: "@ + self.addr@
                + "\r\nContent-Type: application/json\r\nContent-Length: "@ + text::decimal(
                vstd::utf8::encode_utf8(body@).len(),
            ) + "\r\nConnection: close\r\n\r\n"@ + body@,
    {
        let mut out = "POST ".to_string();
        out.append(self.path.as_str());
        out.append(" HTTP/1.1\r\nHost: ");
        out.append(self.addr.as_str());
        out.append("\r\nContent-Type: application/json\r\nContent-Length: ");
        text::push_decimal(&mut out, text::byte_len(body) as u64);
        out.append("\r\nConnection: close\r\n\r\n");
        out.append(body);
        out
    }
}

/// The body of an answer: what follows the first empty line. Without one the answer is
/// invalid.
pub fn answer_body(answer: &str) -> (r: Option<String>)
    ensures
        match r {
            Some(body) => exists|i: int|
                #[trigger] text::first_at(answer@, "\r\n\r\n"@, i) && body@ == body_from(answer@, i),
            None => !text::occurs(answer@, "\r\n\r\n"@),
        },
        match r {
            Some(body) => {
                let n = answer@.len() - body@.len();
                &&& 4 <= n <= answer@.len()
                &&& answer@.skip(n) == body@
                &&& answer@.subrange(n - 4, n) == seq!['\r', '\n', '\r', '\n']
                &&& forall|j: int|
                    0 <= j < n - 4 ==> #[trigger] answer@.subrange(j, j + 4) != seq![
                        '\r',
                        '\n',
                        '\r',
                        '\n',
                    ]
            },
            None => forall|j: int|
                0 <= j && j + 4 <= answer@.len() ==> #[trigger] answer@.subrange(j, j + 4) != seq![
                    '\r',
                    '\n',
                    '\r',
                    '\n',
                ],
        },
{
    proof {
        reveal_strlit("\r\n\r\n");
        assert("\r\n\r\n"@ == seq!['\r', '\n', '\r', '\n']);
    }
    match text::find_blank_line(answer) {
        Some(i) => {
            let n = answer.unicode_len();
            let body = answer.substring_char(i + 4, n).to_string();
            proof {
                let blank = seq!['\r', '\n', '\r', '\n'];
                assert(body@ == answer@.skip(i + 4));
                assert forall|j: int| 0 <= j < i implies #[trigger] answer@.subrange(j, j + 4)
                    != blank by {
                    assert(!text::occurs_at(answer@, blank, j));
                }
            }
            Some(body)
        },
        None => {
            proof {
                let blank = seq!['\r', '\n', '\r', '\n'];
                assert forall|j: int|
                    0 <= j && j + 4 <= answer@.len() implies #[trigger] answer@.subrange(j, j + 4)
                    != blank by {
                    assert(!text::occurs_at(answer@, blank, j));
                }
            }
            None
        },
    }
}

/// The body of an answer that came as bytes.
pub fn plugin_answer(bytes: &[u8]) -> (r: Option<String>)
    ensures
        match r {
            Some(body) => exists|i: int|
                #[trigger] text::first_at(text::utf8_lossy(bytes@), "\r\n\r\n"@, i) && body@
                    == body_from(text::utf8_lossy(bytes@), i),
            None => !text::occurs(text::utf8_lossy(bytes@), "\r\n\r\n"@),
        },
{
    let answer = text::string_from_utf8_lossy(bytes);
    answer_body(answer.as_str())
}

/// Every plugin goes by its type.
pub proof fn plugins_go_by_their_type(p: AnyPlugin)
    ensures
        p.label() == p.kind(),
        p is HttpProxy ==> p.kind() == "http_proxy"@,
        p is Socks5 ==> p.kind() == "socks5"@,
        p is StaticFile ==> p.kind() == "static_file"@,
        p is Http2Https ==> p.kind() == "http2https"@,
        p is Https2Http ==> p.kind() == "https2http"@,
        p is Http2Http ==> p.kind() == "http2http"@,
        p is Https2Https ==> p.kind() == "https2https"@,
        p is Tls2Raw ==> p.kind() == "tls2raw"@,
        p is UnixDomainSocket ==> p.kind() == "unix_domain_socket"@,
{
}

} // verus!
