//! Canvas and WebGL entropy injection.
//!
//! A pre-document script wraps the pixel-reading APIs and adds bounded,
//! session-seeded noise to the color channels, never to alpha, so that two
//! sessions rendering the same content read back different bytes. The
//! script text is assembled here; [`apply_entropy`] is the library's
//! reference implementation of the hook's arithmetic on raw RGBA bytes.

use vstd::prelude::*;

verus! {

use crate::text::{u64_to_string, spec_dec_u64, spec_digit_char, digit_str};

/// Entropy-injection configuration.
pub struct DbiConfig {
    /// Inject noise into canvas pixel reads.
    pub canvas_entropy: bool,
    /// Inject noise into WebGL pixel reads.
    pub webgl_entropy: bool,
    /// Noise strength in thousandths of full scale.
    pub entropy_strength_permille: u32,
    /// Session-unique seed.
    pub session_seed: u64,
}

impl Default for DbiConfig {
    fn default() -> (c: Self)
        ensures
            c.canvas_entropy,
            c.webgl_entropy,
            c.entropy_strength_permille == 10,
            c.session_seed == 0,
    {
        DbiConfig {
            canvas_entropy: true,
            webgl_entropy: true,
            entropy_strength_permille: 10,
            session_seed: 0,
        }
    }
}

/// One step of the session-seeded linear congruential generator, masked to
/// 31 bits.
pub open spec fn lcg_spec(state: u64) -> u64 {
    (((state & 0x7fff_ffff) * 1103515245 + 12345) % 0x8000_0000) as u64
}

/// The generator's state after `n` steps from the seed.
pub open spec fn lcg_iter(seed: u64, n: nat) -> u64
    decreases n,
{
    if n == 0 {
        seed & 0x7fff_ffff
    } else {
        lcg_spec(lcg_iter(seed, (n - 1) as nat))
    }
}

/// One generator step.
pub fn lcg_next(state: u64) -> (r: u64)
    ensures
        r == lcg_spec(state),
        r < 0x8000_0000,
{
    let masked = state & 0x7fff_ffff;
    proof {
        assert(masked <= 0x7fff_ffff) by (bit_vector)
            requires
                masked == state & 0x7fff_ffff,
        ;
    }
    let product = masked * 1103515245 + 12345;
    let r = product % 0x8000_0000;
    r
}

/// The noise value derived from a generator state: the state centered
/// around zero, scaled by the strength, over the full scale of 255.
pub open spec fn noise_of(state: u64, strength_permille: u32) -> int {
    let centered = 2 * (state as int) - 0x7fff_ffff;
    if centered >= 0 {
        (centered * strength_permille * 255) / ((0x7fff_ffff * 1000) as int)
    } else {
        -(((-centered) * strength_permille * 255) / ((0x7fff_ffff * 1000) as int))
    }
}

/// Compute the noise for one pixel.
fn noise_exec(state: u64, strength_permille: u32) -> (r: i64)
    requires
        state < 0x8000_0000,
        strength_permille <= 1000,
    ensures
        r as int == noise_of(state, strength_permille),
        -255 <= r <= 255,
{
    let centered: i64 = 2 * (state as i64) - 0x7fff_ffff;
    let mag: i64 = if centered >= 0 {
        centered
    } else {
        -centered
    };
    proof {
        assert(0 <= mag <= 0x7fff_ffff);
        assert(mag * (strength_permille as i64) <= 0x7fff_ffff * 1000) by (nonlinear_arith)
            requires
                0 <= mag <= 0x7fff_ffff,
                strength_permille <= 1000,
        ;
        assert(mag * (strength_permille as i64) * 255 <= 0x7fff_ffff * 1000 * 255)
            by (nonlinear_arith)
            requires
                0 <= mag,
                mag * (strength_permille as i64) <= 0x7fff_ffff * 1000,
        ;
        assert(0 <= mag * (strength_permille as i64) * 255) by (nonlinear_arith)
            requires
                0 <= mag,
                0 <= strength_permille,
        ;
    }
    let q: i64 = (mag * (strength_permille as i64) * 255) / (0x7fff_ffff * 1000);
    proof {
        assert(0 <= q <= 255) by (nonlinear_arith)
            requires
                q == (mag * (strength_permille as i64) * 255) / ((0x7fff_ffff * 1000) as int),
                0 <= mag * (strength_permille as i64) * 255 <= 0x7fff_ffff * 1000 * 255,
        ;
    }
    if centered >= 0 {
        q
    } else {
        -q
    }
}

/// A channel value moved by a noise amount, clamped to the byte range.
pub open spec fn chan(old: u8, noise: int) -> u8 {
    if old + noise < 0 {
        0u8
    } else if old + noise > 255 {
        255u8
    } else {
        (old + noise) as u8
    }
}

/// Apply the entropy hook's arithmetic to raw RGBA bytes: for each pixel,
/// one generator step yields one noise value, added to R, G and B and
/// clamped; alpha is preserved exactly.
pub fn apply_entropy(pixels: &mut Vec<u8>, seed: u64, strength_permille: u32)
    requires
        old(pixels)@.len() % 4 == 0,
        strength_permille <= 1000,
    ensures
        final(pixels)@.len() == old(pixels)@.len(),
        forall|k: int|
            0 <= k < old(pixels)@.len() && k % 4 == 3 ==> final(pixels)@[k] == old(pixels)@[k],
        forall|k: int|
            0 <= k < old(pixels)@.len() && k % 4 != 3 ==> final(pixels)@[k] == chan(
                old(pixels)@[k],
                noise_of(lcg_iter(seed, (k / 4 + 1) as nat), strength_permille),
            ),
{
    let n = pixels.len();
    let groups = n / 4;
    proof {
        assert(groups * 4 == n);
    }
    let mut state: u64 = seed & 0x7fff_ffff;
    proof {
        assert(state < 0x8000_0000) by (bit_vector)
            requires
                state == seed & 0x7fff_ffff,
        ;
    }
    let mut g: usize = 0;
    while g < groups
        invariant
            n == pixels@.len(),
            n == old(pixels)@.len(),
            n % 4 == 0,
            groups * 4 == n,
            strength_permille <= 1000,
            g <= groups,
            state == lcg_iter(seed, g as nat),
            state < 0x8000_0000,
            forall|k: int| g * 4 <= k < n ==> pixels@[k] == old(pixels)@[k],
            forall|k: int|
                0 <= k < g * 4 && k % 4 == 3 ==> pixels@[k] == old(pixels)@[k],
            forall|k: int|
                0 <= k < g * 4 && k % 4 != 3 ==> pixels@[k] == chan(
                    old(pixels)@[k],
                    noise_of(lcg_iter(seed, (k / 4 + 1) as nat), strength_permille),
                ),
        decreases groups - g,
    {
        state = lcg_next(state);
        let noise = noise_exec(state, strength_permille);
        proof {
            assert(g * 4 + 4 <= groups * 4) by (nonlinear_arith)
                requires
                    g < groups,
            ;
        }
        let base = g * 4;
        let mut c: usize = 0;
        while c < 3
            invariant
                n == pixels@.len(),
                n == old(pixels)@.len(),
                base == g * 4,
                base + 3 < n,
                c <= 3,
                strength_permille <= 1000,
                state < 0x8000_0000,
                noise as int == noise_of(state, strength_permille),
                -255 <= noise <= 255,
                forall|k: int| base + c <= k < n ==> pixels@[k] == old(pixels)@[k],
                forall|k: int|
                    0 <= k < base && k % 4 == 3 ==> pixels@[k] == old(pixels)@[k],
                forall|k: int|
                    0 <= k < base && k % 4 != 3 ==> pixels@[k] == chan(
                        old(pixels)@[k],
                        noise_of(lcg_iter(seed, (k / 4 + 1) as nat), strength_permille),
                    ),
                forall|k: int|
                    base <= k < base + c ==> pixels@[k] == chan(
                        old(pixels)@[k],
                        noise_of(state, strength_permille),
                    ),
            decreases 3 - c,
        {
            let oldv = pixels[base + c];
            let shifted: i64 = (oldv as i64) + noise;
            let newv: u8 = if shifted < 0 {
                0
            } else if shifted > 255 {
                255
            } else {
                shifted as u8
            };
            pixels.set(base + c, newv);
            c += 1;
        }
        g += 1;
        proof {
            assert(state == lcg_iter(seed, g as nat));
            assert forall|k: int| 0 <= k < g * 4 && k % 4 != 3 implies pixels@[k] == chan(
                old(pixels)@[k],
                noise_of(lcg_iter(seed, (k / 4 + 1) as nat), strength_permille),
            ) by {
                if k >= (g - 1) * 4 {
                    assert(k / 4 == g - 1);
                }
            }
            assert forall|k: int| 0 <= k < g * 4 && k % 4 == 3 implies pixels@[k] == old(
                pixels,
            )@[k] by {
                if k >= (g - 1) * 4 {
                    assert(k == (g - 1) * 4 + 3);
                }
            }
        }
    }
}

/// The noise strength as the decimal fraction the script embeds.
pub open spec fn spec_frac3(p: nat) -> Seq<char> {
    seq!['0', '.', spec_digit_char(p / 100 % 10), spec_digit_char(p / 10 % 10), spec_digit_char(
        p % 10,
    )]
}

/// Render the strength as a decimal fraction.
fn frac3(p: u32) -> (out: String)
    requires
        p <= 1000,
    ensures
        out@ == spec_frac3(p as nat),
{
    let mut out = String::new();
    proof {
        reveal_strlit("0");
        reveal_strlit(".");
    }
    out.append("0");
    out.append(".");
    out.append(digit_str((p as u64) / 100 % 10));
    out.append(digit_str((p as u64) / 10 % 10));
    out.append(digit_str((p as u64) % 10));
    proof {
        assert(out@ =~= spec_frac3(p as nat));
    }
    out
}

/// The hook script: the seed and the strength stand between three fixed
/// parts of JavaScript.
pub open spec fn spec_canvas_script(seed: nat, strength_permille: nat) -> Seq<char> {
    canvas_script_head() + spec_dec_u64(seed) + canvas_script_mid() + spec_frac3(strength_permille)
        + canvas_script_tail()
}

/// The script text before the seed.
pub open spec fn canvas_script_head() -> Seq<char> {
    "(function() {\n    'use strict';\n    const SESSION_SEED = "@
}

/// The script text between the seed and the strength.
pub open spec fn canvas_script_mid() -> Seq<char> {
    ";\n    const ENTROPY_STRENGTH = "@
}

/// The script text after the strength.
pub open spec fn canvas_script_tail() -> Seq<char> {
    ";\n    function seededRandom(seed) {\n        let state = seed;\n        return function() {\n            state = (state * 1103515245 + 12345) & 0x7fffffff;\n            return (state >>> 0) / 0x7fffffff;\n        };\n    }\n    const rng = seededRandom(SESSION_SEED);\n    if (typeof HTMLCanvasElement !== 'undefined') {\n        const originalGetImageData = CanvasRenderingContext2D.prototype.getImageData;\n        CanvasRenderingContext2D.prototype.getImageData = function(sx, sy, sw, sh) {\n            const imageData = originalGetImageData.call(this, sx, sy, sw, sh);\n            const data = imageData.data;\n            for (let i = 0; i < data.length; i += 4) {\n                const noise = (rng() - 0.5) * 2 * ENTROPY_STRENGTH * 255;\n                data[i] = Math.max(0, Math.min(255, data[i] + noise));\n                data[i + 1] = Math.max(0, Math.min(255, data[i + 1] + noise));\n                data[i + 2] = Math.max(0, Math.min(255, data[i + 2] + noise));\n            }\n            return imageData;\n        };\n    }\n    if (typeof WebGLRenderingContext !== 'undefined') {\n        const originalReadPixels = WebGLRenderingContext.prototype.readPixels;\n        WebGLRenderingContext.prototype.readPixels = function(x, y, width, height, format, type, pixels) {\n            const result = originalReadPixels.call(this, x, y, width, height, format, type, pixels);\n            if (pixels && pixels instanceof Uint8Array) {\n                for (let i = 0; i < pixels.length; i += 4) {\n                    const noise = (rng() - 0.5) * 2 * ENTROPY_STRENGTH * 255;\n                    pixels[i] = Math.max(0, Math.min(255, pixels[i] + noise));\n                    pixels[i + 1] = Math.max(0, Math.min(255, pixels[i + 1] + noise));\n                    pixels[i + 2] = Math.max(0, Math.min(255, pixels[i + 2] + noise));\n                }\n            }\n            return result;\n        };\n    }\n    if (typeof WebGL2RenderingContext !== 'undefined') {\n        const originalReadPixels2 = WebGL2RenderingContext.prototype.readPixels;\n        WebGL2RenderingContext.prototype.readPixels = function(x, y, width, height, format, type, offset) {\n            return originalReadPixels2.call(this, x, y, width, height, format, type, offset);\n        };\n    }\n})();"@
}

/// Manager of the entropy hooks.
pub struct DbiManager {
    /// The configuration the scripts are generated from.
    pub config: DbiConfig,
}

impl DbiManager {
    /// Create a manager.
    pub fn new(config: DbiConfig) -> (r: Self)
        ensures
            r.config == config,
    {
        DbiManager { config }
    }

    /// The canvas hook script with the session's seed and strength.
    pub fn get_canvas_hook_script(&self) -> (out: String)
        requires
            self.config.entropy_strength_permille <= 1000,
        ensures
            out@ == spec_canvas_script(
                self.config.session_seed as nat,
                self.config.entropy_strength_permille as nat,
            ),
    {
        let mut out = String::from_str("(function() {\n    'use strict';\n    const SESSION_SEED = ");
        let seed = u64_to_string(self.config.session_seed);
        out.append(seed.as_str());
        out.append(";\n    const ENTROPY_STRENGTH = ");
        let f = frac3(self.config.entropy_strength_permille);
        out.append(f.as_str());
        out.append(";\n    function seededRandom(seed) {\n        let state = seed;\n        return function() {\n            state = (state * 1103515245 + 12345) & 0x7fffffff;\n            return (state >>> 0) / 0x7fffffff;\n        };\n    }\n    const rng = seededRandom(SESSION_SEED);\n    if (typeof HTMLCanvasElement !== 'undefined') {\n        const originalGetImageData = CanvasRenderingContext2D.prototype.getImageData;\n        CanvasRenderingContext2D.prototype.getImageData = function(sx, sy, sw, sh) {\n            const imageData = originalGetImageData.call(this, sx, sy, sw, sh);\n            const data = imageData.data;\n            for (let i = 0; i < data.length; i += 4) {\n                const noise = (rng() - 0.5) * 2 * ENTROPY_STRENGTH * 255;\n                data[i] = Math.max(0, Math.min(255, data[i] + noise));\n                data[i + 1] = Math.max(0, Math.min(255, data[i + 1] + noise));\n                data[i + 2] = Math.max(0, Math.min(255, data[i + 2] + noise));\n            }\n            return imageData;\n        };\n    }\n    if (typeof WebGLRenderingContext !== 'undefined') {\n        const originalReadPixels = WebGLRenderingContext.prototype.readPixels;\n        WebGLRenderingContext.prototype.readPixels = function(x, y, width, height, format, type, pixels) {\n            const result = originalReadPixels.call(this, x, y, width, height, format, type, pixels);\n            if (pixels && pixels instanceof Uint8Array) {\n                for (let i = 0; i < pixels.length; i += 4) {\n                    const noise = (rng() - 0.5) * 2 * ENTROPY_STRENGTH * 255;\n                    pixels[i] = Math.max(0, Math.min(255, pixels[i] + noise));\n                    pixels[i + 1] = Math.max(0, Math.min(255, pixels[i + 1] + noise));\n                    pixels[i + 2] = Math.max(0, Math.min(255, pixels[i + 2] + noise));\n                }\n            }\n            return result;\n        };\n    }\n    if (typeof WebGL2RenderingContext !== 'undefined') {\n        const originalReadPixels2 = WebGL2RenderingContext.prototype.readPixels;\n        WebGL2RenderingContext.prototype.readPixels = function(x, y, width, height, format, type, offset) {\n            return originalReadPixels2.call(this, x, y, width, height, format, type, offset);\n        };\n    }\n})();");
        proof {
            assert(out@ =~= spec_canvas_script(
                self.config.session_seed as nat,
                self.config.entropy_strength_permille as nat,
            ));
        }
        out
    }

    /// The WebGL hook script; WebGL entropy is handled in the canvas hook
    /// script, so it is the same text.
    pub fn get_webgl_hook_script(&self) -> (out: String)
        requires
            self.config.entropy_strength_permille <= 1000,
        ensures
            out@ == spec_canvas_script(
                self.config.session_seed as nat,
                self.config.entropy_strength_permille as nat,
            ),
    {
        self.get_canvas_hook_script()
    }
}

/// Build the entropy manager: the given configuration, or the default one
/// seeded with the session's creation time.
pub fn initialize_dbi(config: Option<DbiConfig>, now_secs: u64) -> (r: DbiManager)
    ensures
        match config {
            Some(c) => r.config == c,
            None => {
                &&& r.config.canvas_entropy
                &&& r.config.webgl_entropy
                &&& r.config.entropy_strength_permille == 10
                &&& r.config.session_seed == now_secs
            },
        },
{
    let c = match config {
        Some(c) => c,
        None => {
            let mut d = DbiConfig::default();
            d.session_seed = now_secs;
            d
        },
    };
    DbiManager::new(c)
}

} // verus!
