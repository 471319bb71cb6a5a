use chagle::config::{ClientPluginConfig, MaskedString, ServerPluginConfig};
use chagle::plugin::{
    answer_body, create_plugin, plugin_answer, AnyPlugin, ClientPlugin, PluginOp, ServerPlugin,
};
use chagle::proxy_protocol::{
    proxy_protocol_header, proxy_protocol_v1_header, proxy_protocol_v2_header, SocketAddress,
};

fn octets(groups: [u16; 8]) -> [u8; 16] {
    let mut ip = [0; 16];
    for (i, g) in groups.iter().enumerate() {
        ip[2 * i] = (g / 256) as u8;
        ip[2 * i + 1] = (g % 256) as u8;
    }
    ip
}

#[test]
fn test_v1_header_ipv4() {
    let src = SocketAddress::V4([192, 168, 1, 1], 12345);
    let dst = SocketAddress::V4([10, 0, 0, 1], 80);
    let header = proxy_protocol_v1_header(src, dst);
    let expected = "PROXY TCP4 192.168.1.1 10.0.0.1 12345 80\r\n";
    assert_eq!(String::from_utf8(header).unwrap(), expected);
}

#[test]
fn test_v1_header_ipv6() {
    let localhost = octets([0, 0, 0, 0, 0, 0, 0, 1]);
    let src = SocketAddress::V6(localhost, 12345);
    let dst = SocketAddress::V6(localhost, 80);
    let header = proxy_protocol_v1_header(src, dst);
    assert!(String::from_utf8(header).unwrap().starts_with("PROXY TCP6"));
}

#[test]
fn test_v2_header_ipv4() {
    let src = SocketAddress::V4([192, 168, 1, 1], 12345);
    let dst = SocketAddress::V4([10, 0, 0, 1], 80);
    let header = proxy_protocol_v2_header(src, dst);
    // Signature check
    assert_eq!(
        &header[..12],
        &[
            0x0D, 0x0A, 0x0D, 0x0A, 0x00, 0x0D, 0x0A, 0x51, 0x55, 0x49, 0x54, 0x0A
        ]
    );
    // Version + command
    assert_eq!(header[12], 0x21);
    // Total: 16 header + 12 address = 28
    assert_eq!(header.len(), 28);
}

#[test]
fn ipv6_is_written_as_usual() {
    let addresses = [
        ("::", [0x0, 0x0, 0x0, 0x0, 0x0, 0x0, 0x0, 0x0]),
        ("::1", [0x0, 0x0, 0x0, 0x0, 0x0, 0x0, 0x0, 0x1]),
        ("1::", [0x1, 0x0, 0x0, 0x0, 0x0, 0x0, 0x0, 0x0]),
        ("2001:db8::1", [0x2001, 0xdb8, 0x0, 0x0, 0x0, 0x0, 0x0, 0x1]),
        ("2001:db8:0:1:1:1:1:1", [0x2001, 0xdb8, 0x0, 0x1, 0x1, 0x1, 0x1, 0x1]),
        ("2001:0:0:1::1", [0x2001, 0x0, 0x0, 0x1, 0x0, 0x0, 0x0, 0x1]),
        ("2001:db8::1:0:0:1", [0x2001, 0xdb8, 0x0, 0x0, 0x1, 0x0, 0x0, 0x1]),
        ("fe80::ff:fe00:1", [0xfe80, 0x0, 0x0, 0x0, 0x0, 0xff, 0xfe00, 0x1]),
        ("::ffff:192.168.0.1", [0x0, 0x0, 0x0, 0x0, 0x0, 0xffff, 0xc0a8, 0x1]),
        ("::c0a8:1", [0x0, 0x0, 0x0, 0x0, 0x0, 0x0, 0xc0a8, 0x1]),
        ("1:2:3:4:5:6:7:8", [0x1, 0x2, 0x3, 0x4, 0x5, 0x6, 0x7, 0x8]),
        ("0:1:2:3:4:5:6:0", [0x0, 0x1, 0x2, 0x3, 0x4, 0x5, 0x6, 0x0]),
        ("ffff:ffff:ffff:ffff:ffff:ffff:ffff:ffff", [0xffff, 0xffff, 0xffff, 0xffff, 0xffff, 0xffff, 0xffff, 0xffff]),
        ("1::2:0:0:3:4", [0x1, 0x0, 0x0, 0x2, 0x0, 0x0, 0x3, 0x4]),
        ("abcd:ef01:2345:6789:abcd:ef01::", [0xabcd, 0xef01, 0x2345, 0x6789, 0xabcd, 0xef01, 0x0, 0x0]),
    ];
    for (text, groups) in addresses {
        let src = SocketAddress::V6(octets(groups), 1);
        let header = proxy_protocol_v1_header(src, SocketAddress::V4([1, 2, 3, 4], 65535));
        let expected = format!("PROXY TCP6 {} 1.2.3.4 1 65535\r\n", text);
        assert_eq!(String::from_utf8(header).unwrap(), expected);
    }
}

#[test]
fn v2_bytes() {
    let header = proxy_protocol_v2_header(
        SocketAddress::V4([192, 168, 1, 2], 0x1234),
        SocketAddress::V4([10, 0, 0, 1], 80),
    );
    assert_eq!(
        &header[12..],
        &[0x21, 0x11, 0, 12, 192, 168, 1, 2, 10, 0, 0, 1, 0x12, 0x34, 0, 80]
    );
    let header = proxy_protocol_v2_header(
        SocketAddress::V6([1; 16], 258),
        SocketAddress::V6([2; 16], 3),
    );
    assert_eq!(header.len(), 52);
    assert_eq!(&header[12..16], &[0x21, 0x21, 0, 36]);
    assert_eq!(&header[16..32], &[1; 16]);
    assert_eq!(&header[32..48], &[2; 16]);
    assert_eq!(&header[48..], &[1, 2, 0, 3]);
    let header = proxy_protocol_v2_header(
        SocketAddress::V6([1; 16], 258),
        SocketAddress::V4([2; 4], 3),
    );
    assert_eq!(&header[12..], &[0x20, 0, 0, 0]);
}

#[test]
fn version_is_chosen() {
    let a = SocketAddress::V4([127, 0, 0, 1], 1);
    let v1 = proxy_protocol_header("v1", a, a).unwrap();
    assert_eq!(v1, b"PROXY TCP4 127.0.0.1 127.0.0.1 1 1\r\n");
    let v2 = proxy_protocol_header("v2", a, a).unwrap();
    assert_eq!(v2, proxy_protocol_v2_header(a, a));
    let e = proxy_protocol_header("v3", a, a).unwrap_err();
    assert_eq!(e, "Unsupported proxy protocol version: v3");
}

// ---------- plugins ----------

fn plugin_config(kind: &str) -> ClientPluginConfig {
    ClientPluginConfig {
        plugin_type: kind.to_string(),
        local_addr: None,
        host_header_rewrite: Some("inner".to_string()),
        http_user: Some("u".to_string()),
        http_password: Some(MaskedString::from("p")),
        local_path: None,
        strip_prefix: Some("/s".to_string()),
        enable_http2: false,
        unix_path: None,
        crt_path: Some("crt".to_string()),
        key_path: Some("key".to_string()),
    }
}

#[test]
fn plugins_are_made_by_type() {
    for kind in [
        "http_proxy",
        "socks5",
        "static_file",
        "http2https",
        "https2http",
        "http2http",
        "https2https",
        "tls2raw",
        "unix_domain_socket",
    ] {
        let p = create_plugin(&plugin_config(kind)).ok().unwrap();
        assert_eq!(p.name(), kind);
        assert_eq!(p.plugin_type(), kind);
    }
    let e = create_plugin(&plugin_config("ftp")).err().unwrap();
    assert_eq!(e, "Unknown plugin type: ftp");
}

#[test]
fn plugins_have_defaults() {
    match create_plugin(&plugin_config("static_file")).ok().unwrap() {
        AnyPlugin::StaticFile(p) => {
            assert_eq!(p.local_path, ".");
            assert_eq!(p.strip_prefix.as_deref(), Some("/s"));
            assert_eq!(p.http_user.as_deref(), Some("u"));
            assert_eq!(p.http_password.as_deref(), Some("p"));
        }
        _ => panic!("wrong plugin"),
    }
    match create_plugin(&plugin_config("https2http")).ok().unwrap() {
        AnyPlugin::Https2Http(p) => {
            assert_eq!(p.local_addr, "127.0.0.1:80");
            assert_eq!(p.host_header_rewrite.as_deref(), Some("inner"));
            assert_eq!(p.crt_path.as_deref(), Some("crt"));
            assert_eq!(p.key_path.as_deref(), Some("key"));
        }
        _ => panic!("wrong plugin"),
    }
    let mut config = plugin_config("http2https");
    config.local_addr = Some("10.0.0.1:9".to_string());
    match create_plugin(&config).ok().unwrap() {
        AnyPlugin::Http2Https(p) => assert_eq!(p.local_addr, "10.0.0.1:9"),
        _ => panic!("wrong plugin"),
    }
    match create_plugin(&plugin_config("https2https")).ok().unwrap() {
        AnyPlugin::Https2Https(p) => assert_eq!(p.local_addr, "127.0.0.1:443"),
        _ => panic!("wrong plugin"),
    }
    match create_plugin(&plugin_config("tls2raw")).ok().unwrap() {
        AnyPlugin::Tls2Raw(p) => assert_eq!(p.local_addr, "127.0.0.1:0"),
        _ => panic!("wrong plugin"),
    }
    match create_plugin(&plugin_config("unix_domain_socket")).ok().unwrap() {
        AnyPlugin::UnixDomainSocket(p) => assert_eq!(p.unix_path, "/tmp/chagle.sock"),
        _ => panic!("wrong plugin"),
    }
    match create_plugin(&plugin_config("socks5")).ok().unwrap() {
        AnyPlugin::Socks5(p) => assert_eq!(p.password.as_deref(), Some("p")),
        _ => panic!("wrong plugin"),
    }
}

#[test]
fn operations_by_name() {
    assert_eq!(PluginOp::from_str("Login"), Some(PluginOp::Login));
    assert_eq!(PluginOp::from_str("NewProxy"), Some(PluginOp::NewProxy));
    assert_eq!(PluginOp::from_str("CloseProxy"), Some(PluginOp::CloseProxy));
    assert_eq!(PluginOp::from_str("Ping"), Some(PluginOp::Ping));
    assert_eq!(PluginOp::from_str("NewWorkConn"), Some(PluginOp::NewWorkConn));
    assert_eq!(PluginOp::from_str("NewUserConn"), Some(PluginOp::NewUserConn));
    assert_eq!(PluginOp::from_str("login"), None);
}

#[test]
fn server_plugin_is_asked() {
    let p = ServerPlugin::new(&ServerPluginConfig {
        name: "n".to_string(),
        addr: "127.0.0.1:9000".to_string(),
        path: "/handler".to_string(),
        ops: vec!["Login".to_string(), "Ping".to_string()],
        tls_verify: true,
    });
    assert_eq!(p.name, "n");
    assert!(p.tls_verify);
    assert!(p.supports_op("Ping"));
    assert!(!p.supports_op("NewProxy"));
    assert_eq!(
        p.request("{\"ü\":1}"),
        "POST /handler HTTP/1.1\r\nHost: 127.0.0.1:9000\r\nContent-Type: application/json\r\nContent-Length: 8\r\nConnection: close\r\n\r\n{\"ü\":1}"
    );
}

#[test]
fn server_plugin_answers() {
    assert_eq!(
        answer_body("HTTP/1.1 200 OK\r\nA: b\r\n\r\n{}\r\n\r\n").as_deref(),
        Some("{}\r\n\r\n")
    );
    assert_eq!(answer_body("\r\n\r\n").as_deref(), Some(""));
    assert_eq!(answer_body("HTTP/1.1 200 OK\r\n"), None);
    assert_eq!(plugin_answer(b"\xff\r\n\r\nx\xff").as_deref(), Some("x\u{fffd}"));
    assert_eq!(plugin_answer(b""), None);
}
