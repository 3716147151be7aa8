//! Network camouflage tables and the sidecar proxy's request rules.
//!
//! The proxy accepts CONNECT requests and opens transparent tunnels; any
//! plaintext request is denied so that all traffic enters the tunnel path.
//! The fingerprint tables state the TLS and HTTP/2 shape of the browser
//! version the outbound client impersonates. The listener sockets and the
//! byte shoveling live outside the library; it decides, they move bytes.

use vstd::prelude::*;

verus! {

use crate::text::{str_eq, u64_to_string, spec_dec_u64};

/// TLS fingerprint of a target browser version. Order matters everywhere:
/// detectors hash the order of cipher suites and extensions.
pub struct TlsFingerprint {
    /// JA4 fingerprint label.
    pub ja4: String,
    /// Cipher suites in order.
    pub cipher_suites: Vec<u16>,
    /// TLS extensions in order.
    pub extensions: Vec<u16>,
    /// ALPN protocols.
    pub alpn_protocols: Vec<String>,
    /// Supported elliptic-curve groups in order.
    pub supported_groups: Vec<u16>,
    /// Signature algorithms in order.
    pub signature_algorithms: Vec<u16>,
}

/// The cipher-suite order of the Chrome 124 handshake.
pub open spec fn chrome_cipher_suites() -> Seq<u16> {
    seq![0x1303u16, 0x1302u16, 0xcca8u16, 0xcca9u16, 0xc02fu16, 0xc02bu16]
}

/// The extension order of the Chrome 124 handshake, GREASE included.
pub open spec fn chrome_extensions() -> Seq<u16> {
    seq![
        0x0000u16,
        0x000au16,
        0x000bu16,
        0x000du16,
        0x0010u16,
        0x0017u16,
        0x002bu16,
        0x002du16,
        0x0033u16,
        0x4489u16,
    ]
}

/// The supported-groups order of the Chrome 124 handshake.
pub open spec fn chrome_groups() -> Seq<u16> {
    seq![0x001du16, 0x0017u16, 0x0018u16]
}

/// The signature-algorithm order of the Chrome 124 handshake.
pub open spec fn chrome_signature_algorithms() -> Seq<u16> {
    seq![0x0804u16, 0x0805u16, 0x0806u16, 0x0401u16, 0x0501u16, 0x0601u16]
}

/// A fingerprint filled with the Chrome 124 handshake shape.
pub open spec fn is_chrome_fingerprint(f: &TlsFingerprint) -> bool {
    &&& f.ja4@ == "t13d1516h2_8daaf6152771_0c1b2b3b4b5b6b7b8b9b"@
    &&& f.cipher_suites@ == chrome_cipher_suites()
    &&& f.extensions@ == chrome_extensions()
    &&& f.alpn_protocols@.len() == 2
    &&& f.alpn_protocols@[0]@ == "h2"@
    &&& f.alpn_protocols@[1]@ == "http/1.1"@
    &&& f.supported_groups@ == chrome_groups()
    &&& f.signature_algorithms@ == chrome_signature_algorithms()
}

fn chrome_fingerprint() -> (f: TlsFingerprint)
    ensures
        is_chrome_fingerprint(&f),
{
    let mut cipher_suites: Vec<u16> = Vec::new();
    cipher_suites.push(0x1303);
    cipher_suites.push(0x1302);
    cipher_suites.push(0xcca8);
    cipher_suites.push(0xcca9);
    cipher_suites.push(0xc02f);
    cipher_suites.push(0xc02b);
    let mut extensions: Vec<u16> = Vec::new();
    extensions.push(0x0000);
    extensions.push(0x000a);
    extensions.push(0x000b);
    extensions.push(0x000d);
    extensions.push(0x0010);
    extensions.push(0x0017);
    extensions.push(0x002b);
    extensions.push(0x002d);
    extensions.push(0x0033);
    extensions.push(0x4489);
    let mut alpn_protocols: Vec<String> = Vec::new();
    alpn_protocols.push(String::from_str("h2"));
    alpn_protocols.push(String::from_str("http/1.1"));
    let mut supported_groups: Vec<u16> = Vec::new();
    supported_groups.push(0x001d);
    supported_groups.push(0x0017);
    supported_groups.push(0x0018);
    let mut signature_algorithms: Vec<u16> = Vec::new();
    signature_algorithms.push(0x0804);
    signature_algorithms.push(0x0805);
    signature_algorithms.push(0x0806);
    signature_algorithms.push(0x0401);
    signature_algorithms.push(0x0501);
    signature_algorithms.push(0x0601);
    let f = TlsFingerprint {
        ja4: String::from_str("t13d1516h2_8daaf6152771_0c1b2b3b4b5b6b7b8b9b"),
        cipher_suites,
        extensions,
        alpn_protocols,
        supported_groups,
        signature_algorithms,
    };
    proof {
        assert(f.cipher_suites@ =~= chrome_cipher_suites());
        assert(f.extensions@ =~= chrome_extensions());
        assert(f.supported_groups@ =~= chrome_groups());
        assert(f.signature_algorithms@ =~= chrome_signature_algorithms());
    }
    f
}

impl TlsFingerprint {
    /// The Chrome 133 fingerprint; no capture of that version exists yet,
    /// so it carries the Chrome 124 shape as its baseline.
    pub fn chrome_133() -> (f: Self)
        ensures
            is_chrome_fingerprint(&f),
    {
        chrome_fingerprint()
    }

    /// The Chrome 124 fingerprint.
    pub fn chrome_124() -> (f: Self)
        ensures
            is_chrome_fingerprint(&f),
    {
        chrome_fingerprint()
    }

    /// Whether this fingerprint's JA4 label matches the expected one.
    pub fn verify_ja4(&self, expected: &str) -> (r: bool)
        ensures
            r == (self.ja4@ == expected@),
    {
        str_eq(self.ja4.as_str(), expected)
    }
}

/// HTTP/2 frame settings of a target browser version.
pub struct Http2FrameConfig {
    /// Initial window size.
    pub initial_window_size: u32,
    /// Maximum frame size.
    pub max_frame_size: u32,
    /// Header table size.
    pub header_table_size: u32,
    /// Whether push promises are enabled.
    pub enable_push: bool,
    /// Whether priority frames are normalized.
    pub normalize_priority: bool,
    /// Whether window-update frames are normalized.
    pub normalize_window_update: bool,
}

/// The Chrome HTTP/2 settings shape.
pub open spec fn is_chrome_h2(c: &Http2FrameConfig) -> bool {
    &&& c.initial_window_size == 65535
    &&& c.max_frame_size == 16384
    &&& c.header_table_size == 4096
    &&& c.enable_push
    &&& c.normalize_priority
    &&& c.normalize_window_update
}

impl Default for Http2FrameConfig {
    fn default() -> (c: Self)
        ensures
            is_chrome_h2(&c),
    {
        Http2FrameConfig {
            initial_window_size: 65535,
            max_frame_size: 16384,
            header_table_size: 4096,
            enable_push: true,
            normalize_priority: true,
            normalize_window_update: true,
        }
    }
}

/// The priority weight assigned to a resource type.
pub open spec fn spec_priority(resource_type: Seq<char>) -> (u32, bool) {
    if resource_type == "html"@ || resource_type == "document"@ {
        (256u32, true)
    } else if resource_type == "css"@ || resource_type == "stylesheet"@ {
        (220u32, false)
    } else if resource_type == "js"@ || resource_type == "script"@ {
        (220u32, false)
    } else if resource_type == "image"@ || resource_type == "img"@ {
        (110u32, false)
    } else {
        (180u32, false)
    }
}

impl Http2FrameConfig {
    /// The Chrome 124 HTTP/2 settings.
    pub fn chrome_124() -> (c: Self)
        ensures
            is_chrome_h2(&c),
    {
        Http2FrameConfig {
            initial_window_size: 65535,
            max_frame_size: 16384,
            header_table_size: 4096,
            enable_push: true,
            normalize_priority: true,
            normalize_window_update: true,
        }
    }

    /// The Chrome 133 HTTP/2 settings; the HTTP/2 shape is unchanged from
    /// Chrome 124, only the TLS handshake differs between the versions.
    pub fn chrome_133() -> (c: Self)
        ensures
            is_chrome_h2(&c),
    {
        Http2FrameConfig {
            initial_window_size: 65535,
            max_frame_size: 16384,
            header_table_size: 4096,
            enable_push: true,
            normalize_priority: true,
            normalize_window_update: true,
        }
    }

    /// Normalize a priority frame: the stream keeps its id and gets the
    /// weight and exclusivity Chrome assigns to the resource type.
    pub fn normalize_priority_frame(&self, stream_id: u32, resource_type: &str) -> (r: (
        u32,
        u32,
        bool,
    ))
        ensures
            r.0 == stream_id,
            r.1 == spec_priority(resource_type@).0,
            r.2 == spec_priority(resource_type@).1,
    {
        if str_eq(resource_type, "html") || str_eq(resource_type, "document") {
            (stream_id, 256, true)
        } else if str_eq(resource_type, "css") || str_eq(resource_type, "stylesheet") {
            (stream_id, 220, false)
        } else if str_eq(resource_type, "js") || str_eq(resource_type, "script") {
            (stream_id, 220, false)
        } else if str_eq(resource_type, "image") || str_eq(resource_type, "img") {
            (stream_id, 110, false)
        } else {
            (stream_id, 180, false)
        }
    }

    /// Normalize a window-update: a window below half its initial size is
    /// topped up by one full window, as Chrome updates in such increments.
    pub fn normalize_window_update(&self, current_window: u32) -> (r: u32)
        ensures
            current_window < 32768 ==> r == current_window + 65535,
            current_window >= 32768 ==> r == current_window,
    {
        if current_window < 32768 {
            current_window + 65535
        } else {
            current_window
        }
    }
}

// ---------------------------------------------------------------------------
// Proxy request rules
// ---------------------------------------------------------------------------

/// What the sidecar does with one incoming request.
pub enum ProxyDecision {
    /// Reply 200 and tunnel raw bytes to the target address.
    OpenTunnel(String),
    /// Reply 400: a CONNECT without a usable authority.
    BadRequest,
    /// Reply 403: plaintext is denied to force traffic onto the tunnel.
    DenyPlaintext,
}

/// The target address of a CONNECT: the authority's host, joined with its
/// port, defaulting to the TLS port.
pub open spec fn spec_host_addr(host: Seq<char>, port: Option<u16>) -> Seq<char> {
    host + seq![':'] + spec_dec_u64(
        match port {
            Some(p) => p as nat,
            None => 443,
        },
    )
}

/// Build the target address from an authority.
pub fn host_addr(host: &str, port: Option<u16>) -> (r: String)
    ensures
        r@ == spec_host_addr(host@, port),
{
    let mut s = String::new();
    s.append(host);
    s.append(":");
    let p: u64 = match port {
        Some(p) => p as u64,
        None => 443,
    };
    let ps = u64_to_string(p);
    s.append(ps.as_str());
    proof {
        reveal_strlit(":");
        assert(s@ =~= spec_host_addr(host@, port));
    }
    s
}

/// Decide one proxy request. A CONNECT with an authority opens a tunnel to
/// `host:port` (port defaulting to 443); a CONNECT without one is a bad
/// request; anything else is denied so that the browser stays on the
/// tunnel path.
pub fn classify_request(method: &str, authority: Option<(&str, Option<u16>)>) -> (r: ProxyDecision)
    ensures
        method@ == "CONNECT"@ ==> (match authority {
            Some((host, port)) => r matches ProxyDecision::OpenTunnel(a) && a@ == spec_host_addr(
                host@,
                port,
            ),
            None => r is BadRequest,
        }),
        method@ != "CONNECT"@ ==> r is DenyPlaintext,
{
    if str_eq(method, "CONNECT") {
        match authority {
            Some((host, port)) => ProxyDecision::OpenTunnel(host_addr(host, port)),
            None => ProxyDecision::BadRequest,
        }
    } else {
        ProxyDecision::DenyPlaintext
    }
}

impl ProxyDecision {
    /// The HTTP status code the sidecar replies with.
    pub fn status_code(&self) -> (r: u16)
        ensures
            self is OpenTunnel ==> r == 200,
            self is BadRequest ==> r == 400,
            self is DenyPlaintext ==> r == 403,
    {
        match self {
            ProxyDecision::OpenTunnel(_) => 200,
            ProxyDecision::BadRequest => 400,
            ProxyDecision::DenyPlaintext => 403,
        }
    }
}

} // verus!
