//! Session-side data the browser is launched and probed with: the launch
//! arguments that bind it to the sidecar, the pre-document sanitization
//! script, and the visual hash of a screenshot.
//!
//! The browser process and its debugger channel live outside the library;
//! callers hand in plain values (a port, PNG bytes) and take plain values
//! back.

use vstd::prelude::*;
use sha2::Digest;

verus! {

use crate::text::{u64_to_string, spec_dec_u64};

/// The digest of the SHA-256 function on a byte string. Relied on below;
/// stated only by name: the function's value table has no short statement.
pub uninterp spec fn sha256_of(data: Seq<u8>) -> Seq<u8>;

/// Relies on sha2's `Sha256`: the digest is 32 bytes and depends on the
/// input bytes alone.
#[verifier::external_body]
fn sha256(data: &Vec<u8>) -> (r: Vec<u8>)
    ensures
        r@ == sha256_of(data@),
        r@.len() == 32,
{
    sha2::Sha256::digest(data.as_slice()).to_vec()
}

/// The lowercase hex digit of a value below sixteen.
pub open spec fn hex_digit(d: nat) -> char {
    if d == 0 {
        '0'
    } else if d == 1 {
        '1'
    } else if d == 2 {
        '2'
    } else if d == 3 {
        '3'
    } else if d == 4 {
        '4'
    } else if d == 5 {
        '5'
    } else if d == 6 {
        '6'
    } else if d == 7 {
        '7'
    } else if d == 8 {
        '8'
    } else if d == 9 {
        '9'
    } else if d == 10 {
        'a'
    } else if d == 11 {
        'b'
    } else if d == 12 {
        'c'
    } else if d == 13 {
        'd'
    } else if d == 14 {
        'e'
    } else {
        'f'
    }
}

/// Lowercase hex rendering of a byte string, two digits per byte.
pub open spec fn hex_of(bytes: Seq<u8>) -> Seq<char> {
    Seq::new(
        bytes.len() * 2,
        |i: int|
            if i % 2 == 0 {
                hex_digit((bytes[i / 2] / 16) as nat)
            } else {
                hex_digit((bytes[i / 2] % 16) as nat)
            },
    )
}

/// A one-character string slice for a hex digit value.
fn hex_digit_str(d: u8) -> (s: &'static str)
    requires
        d < 16,
    ensures
        s@ =~= seq![hex_digit(d as nat)],
{
    proof {
        reveal_strlit("0");
        reveal_strlit("1");
        reveal_strlit("2");
        reveal_strlit("3");
        reveal_strlit("4");
        reveal_strlit("5");
        reveal_strlit("6");
        reveal_strlit("7");
        reveal_strlit("8");
        reveal_strlit("9");
        reveal_strlit("a");
        reveal_strlit("b");
        reveal_strlit("c");
        reveal_strlit("d");
        reveal_strlit("e");
        reveal_strlit("f");
    }
    match d {
        0 => "0",
        1 => "1",
        2 => "2",
        3 => "3",
        4 => "4",
        5 => "5",
        6 => "6",
        7 => "7",
        8 => "8",
        9 => "9",
        10 => "a",
        11 => "b",
        12 => "c",
        13 => "d",
        14 => "e",
        _ => "f",
    }
}

/// Render a byte string in lowercase hex.
pub fn to_hex(bytes: &Vec<u8>) -> (out: String)
    ensures
        out@ == hex_of(bytes@),
{
    let mut out = String::new();
    let n = bytes.len();
    let mut i: usize = 0;
    while i < n
        invariant
            n == bytes@.len(),
            i <= n,
            out@ =~= hex_of(bytes@.take(i as int)),
        decreases n - i,
    {
        let b = bytes[i];
        out.append(hex_digit_str(b / 16));
        out.append(hex_digit_str(b % 16));
        proof {
            assert(out@ =~= hex_of(bytes@.take(i + 1))) by {
                assert(bytes@.take(i + 1).len() == i + 1);
                assert forall|t: int|
                    0 <= t < (i + 1) * 2 implies out@[t] == hex_of(bytes@.take(i + 1))[t] by {
                    if t < i * 2 {
                        assert(out@[t] == hex_of(bytes@.take(i as int))[t]);
                        assert(bytes@.take(i as int)[t / 2] == bytes@.take(i + 1)[t / 2]);
                    } else {
                        assert(t / 2 == i);
                        assert(bytes@.take(i + 1)[t / 2] == b);
                    }
                }
            }
        }
        i += 1;
    }
    proof {
        assert(bytes@.take(n as int) =~= bytes@);
    }
    out
}

/// The visual hash of a screenshot: the hex digest of its PNG bytes.
pub open spec fn spec_visual_hash(png: Seq<u8>) -> Seq<char> {
    hex_of(sha256_of(png))
}

/// Hash a screenshot: SHA-256 of the PNG bytes, rendered in hex.
pub fn get_visual_hash(png: &Vec<u8>) -> (r: String)
    ensures
        r@ == spec_visual_hash(png@),
{
    let digest = sha256(png);
    to_hex(&digest)
}

/// The launch arguments that hide automation flags and force the browser
/// through the sidecar proxy on the given port.
pub open spec fn spec_launch_args(args: Seq<String>, proxy_port: u16) -> bool {
    &&& args.len() == 5
    &&& args[0]@ == "--disable-blink-features=AutomationControlled"@
    &&& args[1]@ == "--disable-dev-shm-usage"@
    &&& args[2]@ == "--no-sandbox"@
    &&& args[3]@ == "--disable-gpu"@
    &&& args[4]@ == "--proxy-server=http://127.0.0.1:"@ + spec_dec_u64(proxy_port as nat)
}

/// Build the launch arguments for a session bound to the sidecar.
pub fn launch_args(proxy_port: u16) -> (args: Vec<String>)
    ensures
        spec_launch_args(args@, proxy_port),
{
    let mut args: Vec<String> = Vec::new();
    args.push(String::from_str("--disable-blink-features=AutomationControlled"));
    args.push(String::from_str("--disable-dev-shm-usage"));
    args.push(String::from_str("--no-sandbox"));
    args.push(String::from_str("--disable-gpu"));
    let mut proxy = String::from_str("--proxy-server=http://127.0.0.1:");
    let port = u64_to_string(proxy_port as u64);
    proxy.append(port.as_str());
    args.push(proxy);
    args
}

/// The sanitization script's text, fixed: the masked consumer-hardware
/// getters (CPU count, device memory, platform, the absent automation
/// marker) and the WebGL parameter overrides for codes 37445 and 37446 on
/// both contexts.
pub open spec fn bio_bios_text() -> Seq<char> {
    "Object.defineProperties(navigator, {\n    hardwareConcurrency: { get: () => 8, configurable: true },\n    deviceMemory: { get: () => 8, configurable: true },\n    platform: { get: () => \"Win32\", configurable: true },\n    webdriver: { get: () => undefined, configurable: true }\n});\nconst originalGetParameter = WebGLRenderingContext.prototype.getParameter;\nWebGLRenderingContext.prototype.getParameter = function(parameter) {\n    if (parameter === 37445) {\n        return \"Intel Inc.\";\n    }\n    if (parameter === 37446) {\n        return \"Intel(R) Iris(R) Xe Graphics\";\n    }\n    return originalGetParameter.call(this, parameter);\n};\nif (typeof WebGL2RenderingContext !== 'undefined') {\n    const originalGetParameter2 = WebGL2RenderingContext.prototype.getParameter;\n    WebGL2RenderingContext.prototype.getParameter = function(parameter) {\n        if (parameter === 37445) return \"Intel Inc.\";\n        if (parameter === 37446) return \"Intel(R) Iris(R) Xe Graphics\";\n        return originalGetParameter2.call(this, parameter);\n    };\n}"@
}

/// The pre-document script that masks hardware fingerprinting, run
/// before any page script; its text is exactly [`bio_bios_text`].
pub fn bio_bios_script() -> (s: &'static str)
    ensures
        s@ == bio_bios_text(),
{
    "Object.defineProperties(navigator, {\n    hardwareConcurrency: { get: () => 8, configurable: true },\n    deviceMemory: { get: () => 8, configurable: true },\n    platform: { get: () => \"Win32\", configurable: true },\n    webdriver: { get: () => undefined, configurable: true }\n});\nconst originalGetParameter = WebGLRenderingContext.prototype.getParameter;\nWebGLRenderingContext.prototype.getParameter = function(parameter) {\n    if (parameter === 37445) {\n        return \"Intel Inc.\";\n    }\n    if (parameter === 37446) {\n        return \"Intel(R) Iris(R) Xe Graphics\";\n    }\n    return originalGetParameter.call(this, parameter);\n};\nif (typeof WebGL2RenderingContext !== 'undefined') {\n    const originalGetParameter2 = WebGL2RenderingContext.prototype.getParameter;\n    WebGL2RenderingContext.prototype.getParameter = function(parameter) {\n        if (parameter === 37445) return \"Intel Inc.\";\n        if (parameter === 37446) return \"Intel(R) Iris(R) Xe Graphics\";\n        return originalGetParameter2.call(this, parameter);\n    };\n}"
}

} // verus!
