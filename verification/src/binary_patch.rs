//! In-place byte substitution that erases automation marker strings from a
//! browser binary image.
//!
//! The patcher works on bytes already read into memory; reading and writing
//! the file is the caller's concern. Replacements must have the same length
//! as the original pattern: an unequal-length pattern is skipped, never
//! applied, so the image never changes size.

use vstd::prelude::*;

verus! {

use crate::error::ChimeraError;

/// Binary patching configuration.
pub struct BinaryPatchConfig {
    /// Path to the browser binary.
    pub chromium_path: String,
    /// Whether patching is enabled.
    pub enabled: bool,
    /// Whether to write a backup sibling before patching.
    pub backup: bool,
}

impl Default for BinaryPatchConfig {
    fn default() -> (c: Self)
        ensures
            c.chromium_path@ == "/usr/bin/chromium"@,
            c.enabled,
            c.backup,
    {
        BinaryPatchConfig {
            chromium_path: String::from_str("/usr/bin/chromium"),
            enabled: true,
            backup: true,
        }
    }
}

/// One byte-substitution pattern.
pub struct PatchPattern {
    /// Byte sequence to be erased.
    pub original: Vec<u8>,
    /// Byte sequence written in its place.
    pub replacement: Vec<u8>,
    /// What the pattern is for.
    pub description: String,
}

/// The bytes of an ASCII character sequence.
pub open spec fn ascii_bytes(s: Seq<char>) -> Seq<u8> {
    Seq::new(s.len(), |i: int| s[i] as u8)
}

/// The needle occurs in the data starting at position `i`.
pub open spec fn bytes_match_at(data: Seq<u8>, pat: Seq<u8>, i: int) -> bool {
    0 <= i && i + pat.len() <= data.len() && data.subrange(i, i + pat.len()) == pat
}

/// The needle occurs somewhere in the data.
pub open spec fn contains_pattern(data: Seq<u8>, pat: Seq<u8>) -> bool {
    exists|i: int| bytes_match_at(data, pat, i)
}

/// The data after a greedy left-to-right scan from position `i` that
/// overwrites each occurrence of `orig` with `repl` and continues after it.
pub open spec fn spec_patched(data: Seq<u8>, orig: Seq<u8>, repl: Seq<u8>, i: int) -> Seq<u8>
    decreases data.len() - i,
        when 0 <= i && 0 < orig.len() && orig.len() == repl.len()
{
    if i + orig.len() > data.len() {
        data
    } else if data.subrange(i, i + orig.len()) == orig {
        spec_patched(
            data.subrange(0, i) + repl + data.subrange(i + orig.len(), data.len() as int),
            orig,
            repl,
            i + orig.len(),
        )
    } else {
        spec_patched(data, orig, repl, i + 1)
    }
}

/// The number of occurrences the scan of [`spec_patched`] overwrites.
pub open spec fn spec_patch_count(data: Seq<u8>, orig: Seq<u8>, repl: Seq<u8>, i: int) -> nat
    decreases data.len() - i,
        when 0 <= i && 0 < orig.len() && orig.len() == repl.len()
{
    if i + orig.len() > data.len() {
        0
    } else if data.subrange(i, i + orig.len()) == orig {
        1 + spec_patch_count(
            data.subrange(0, i) + repl + data.subrange(i + orig.len(), data.len() as int),
            orig,
            repl,
            i + orig.len(),
        )
    } else {
        spec_patch_count(data, orig, repl, i + 1)
    }
}

/// A pattern whose two sides have the same, non-empty length.
pub open spec fn pattern_wf(p: &PatchPattern) -> bool {
    0 < p.original@.len()
}

/// The data after one pattern: the scan's result for an applicable
/// (equal-length, non-empty) pattern, the data untouched otherwise.
pub open spec fn spec_patch_one(data: Seq<u8>, p: PatchPattern) -> Seq<u8> {
    if 0 < p.original@.len() && p.original@.len() == p.replacement@.len() {
        spec_patched(data, p.original@, p.replacement@, 0)
    } else {
        data
    }
}

/// The replacement count of one pattern: the scan's count for an
/// applicable pattern, zero otherwise.
pub open spec fn spec_patch_one_count(data: Seq<u8>, p: PatchPattern) -> nat {
    if 0 < p.original@.len() && p.original@.len() == p.replacement@.len() {
        spec_patch_count(data, p.original@, p.replacement@, 0)
    } else {
        0
    }
}

/// The data after every pattern in order: the left-to-right fold of
/// [`spec_patch_one`] over the pattern set.
pub open spec fn spec_patch_all(data: Seq<u8>, ps: Seq<PatchPattern>) -> Seq<u8>
    decreases ps.len(),
{
    if ps.len() == 0 {
        data
    } else {
        spec_patch_all(spec_patch_one(data, ps[0]), ps.drop_first())
    }
}

/// The total replacement count over every pattern in order.
pub open spec fn spec_patch_all_count(data: Seq<u8>, ps: Seq<PatchPattern>) -> nat
    decreases ps.len(),
{
    if ps.len() == 0 {
        0
    } else {
        spec_patch_one_count(data, ps[0]) + spec_patch_all_count(
            spec_patch_one(data, ps[0]),
            ps.drop_first(),
        )
    }
}

/// Compare data against a pattern at one position.
fn bytes_eq_at(data: &Vec<u8>, pat: &Vec<u8>, i: usize) -> (r: bool)
    requires
        i + pat@.len() <= data@.len(),
    ensures
        r == bytes_match_at(data@, pat@, i as int),
{
    let n = pat.len();
    let dl = data.len();
    let mut k: usize = 0;
    while k < n
        invariant
            n == pat@.len(),
            dl == data@.len(),
            i + n <= dl,
            k <= n,
            forall|j: int| 0 <= j < k ==> data@[i + j] == pat@[j],
        decreases n - k,
    {
        if data[i + k] != pat[k] {
            proof {
                assert(data@.subrange(i as int, i + n) != pat@) by {
                    assert(data@.subrange(i as int, i + n)[k as int] != pat@[k as int]);
                }
            }
            return false;
        }
        k += 1;
    }
    proof {
        assert(data@.subrange(i as int, i + n) =~= pat@);
    }
    true
}

/// Overwrite `data[i .. i + src.len()]` with `src`.
fn write_range(data: &mut Vec<u8>, i: usize, src: &Vec<u8>)
    requires
        i + src@.len() <= old(data)@.len(),
    ensures
        final(data)@ =~= old(data)@.subrange(0, i as int) + src@ + old(data)@.subrange(
            i + src@.len(),
            old(data)@.len() as int,
        ),
        final(data)@.len() == old(data)@.len(),
{
    let n = src.len();
    let dl = data.len();
    let mut k: usize = 0;
    while k < n
        invariant
            n == src@.len(),
            dl == old(data)@.len(),
            i + n <= dl,
            data@.len() == old(data)@.len(),
            k <= n,
            forall|j: int| 0 <= j < k ==> data@[i + j] == src@[j],
            forall|j: int| 0 <= j < i ==> data@[j] == old(data)@[j],
            forall|j: int| i + k <= j < data@.len() ==> data@[j] == old(data)@[j],
        decreases n - k,
    {
        data.set(i + k, src[k]);
        k += 1;
    }
}

/// Does one occurrence of the pattern start anywhere in the data?
fn bytes_contain(data: &Vec<u8>, pat: &Vec<u8>) -> (r: bool)
    requires
        pat@.len() > 0,
    ensures
        r == contains_pattern(data@, pat@),
{
    let n = pat.len();
    if n > data.len() {
        proof {
            assert(forall|i: int| !bytes_match_at(data@, pat@, i));
        }
        return false;
    }
    let end = data.len() - n;
    let mut i: usize = 0;
    loop
        invariant
            n == pat@.len(),
            1 <= n <= data@.len(),
            end == data@.len() - n,
            i <= end,
            forall|j: int| 0 <= j < i ==> !bytes_match_at(data@, pat@, j),
        ensures
            forall|j: int| 0 <= j <= end ==> !bytes_match_at(data@, pat@, j),
        decreases end - i,
    {
        if bytes_eq_at(data, pat, i) {
            return true;
        }
        if i == end {
            break ;
        }
        i += 1;
    }
    proof {
        assert(forall|j: int| !bytes_match_at(data@, pat@, j));
    }
    false
}

/// Build a pattern from two ASCII literals.
fn pattern(orig: &str, repl: &str, description: &str) -> (p: PatchPattern)
    requires
        orig.is_ascii(),
        repl.is_ascii(),
        orig@.len() > 0,
    ensures
        p.original@ == ascii_bytes(orig@),
        p.replacement@ == ascii_bytes(repl@),
        pattern_wf(&p),
{
    broadcast use vstd::string::is_ascii_spec_bytes;

    let o = orig.as_bytes_vec();
    let r = repl.as_bytes_vec();
    proof {
        assert(o@ =~= ascii_bytes(orig@));
        assert(r@ =~= ascii_bytes(repl@));
    }
    PatchPattern { original: o, replacement: r, description: String::from_str(description) }
}

impl PatchPattern {
    /// The known marker patterns for the browser binary.
    ///
    /// The first pattern's replacement is longer than its original; under the
    /// equal-length invariant the patcher skips it, so the effective set is
    /// the remaining three. It is kept as declared data.
    pub fn all_patterns() -> (r: Vec<PatchPattern>)
        ensures
            r@.len() == 4,
            forall|j: int| 0 <= j < 4 ==> pattern_wf(&#[trigger] r@[j]),
            r@[0].original@ == ascii_bytes("webdriver"@),
            r@[0].replacement@ == ascii_bytes("__chimera_internal__"@),
            r@[1].original@ == ascii_bytes("Headless"@),
            r@[1].replacement@ == ascii_bytes("Standard"@),
            r@[2].original@ == ascii_bytes("CDP"@),
            r@[2].replacement@ == ascii_bytes("PRO"@),
            r@[3].original@ == ascii_bytes("AutomationControlled"@),
            r@[3].replacement@ == ascii_bytes("UserControlled"@),
    {
        proof {
            reveal_strlit("webdriver");
            reveal_strlit("__chimera_internal__");
            reveal_strlit("Headless");
            reveal_strlit("Standard");
            reveal_strlit("CDP");
            reveal_strlit("PRO");
            reveal_strlit("AutomationControlled");
            reveal_strlit("UserControlled");
        }
        let mut v: Vec<PatchPattern> = Vec::new();
        v.push(
            pattern(
                "webdriver",
                "__chimera_internal__",
                "Replace 'webdriver' internal string with innocuous identifier",
            ),
        );
        v.push(pattern("Headless", "Standard", "Replace 'Headless' in V8 isolate metadata"));
        v.push(pattern("CDP", "PRO", "Replace 'CDP' references in internal metadata"));
        v.push(
            pattern(
                "AutomationControlled",
                "UserControlled",
                "Replace 'AutomationControlled' flag with 'UserControlled'",
            ),
        );
        v
    }
}

/// Binary patcher holding the configuration and the pattern set.
pub struct BinaryPatcher {
    /// Configuration under which the patcher runs.
    pub config: BinaryPatchConfig,
    /// The pattern set the patcher applies.
    pub patterns: Vec<PatchPattern>,
}

impl BinaryPatcher {
    /// All patterns the patcher holds are well-formed.
    pub open spec fn wf(&self) -> bool {
        forall|j: int| 0 <= j < self.patterns@.len() ==> pattern_wf(&#[trigger] self.patterns@[j])
    }

    /// Create a patcher over the known pattern set.
    pub fn new(config: BinaryPatchConfig) -> (r: Self)
        ensures
            r.wf(),
            r.patterns@.len() == 4,
            r.config == config,
    {
        BinaryPatcher { config, patterns: PatchPattern::all_patterns() }
    }

    /// Apply a single pattern to in-memory data: greedy left-to-right scan,
    /// overwriting each occurrence in place and continuing after it.
    ///
    /// The data never changes length. A pattern whose replacement has a
    /// different length is skipped entirely: the data is left untouched and
    /// the count is zero.
    pub fn apply_pattern(&self, data: &mut Vec<u8>, pattern: &PatchPattern) -> (r: Result<
        usize,
        ChimeraError,
    >)
        requires
            pattern_wf(pattern),
        ensures
            final(data)@.len() == old(data)@.len(),
            r is Ok,
            pattern.original@.len() == pattern.replacement@.len() ==> {
                &&& final(data)@ == spec_patched(
                    old(data)@,
                    pattern.original@,
                    pattern.replacement@,
                    0,
                )
                &&& r matches Ok(n) && n as nat == spec_patch_count(
                    old(data)@,
                    pattern.original@,
                    pattern.replacement@,
                    0,
                )
            },
            pattern.original@.len() != pattern.replacement@.len() ==> final(data)@ == old(data)@
                && (r matches Ok(n) && n == 0),
    {
        let orig_len = pattern.original.len();
        let repl_len = pattern.replacement.len();
        if repl_len != orig_len {
            // Unequal lengths would shift file offsets; never resize.
            return Ok(0);
        }
        let ghost orig = pattern.original@;
        let ghost repl = pattern.replacement@;
        let ghost data0 = old(data)@;
        let mut i: usize = 0;
        let mut replacements: usize = 0;
        loop
            invariant
                orig == pattern.original@,
                repl == pattern.replacement@,
                orig.len() == orig_len,
                repl.len() == repl_len,
                orig_len == repl_len,
                0 < orig_len,
                data@.len() == data0.len(),
                i <= data@.len() + orig_len,
                replacements <= i,
                spec_patched(data0, orig, repl, 0) == spec_patched(data@, orig, repl, i as int),
                spec_patch_count(data0, orig, repl, 0) == replacements + spec_patch_count(
                    data@,
                    orig,
                    repl,
                    i as int,
                ),
            ensures
                data@.len() == data0.len(),
                data@ == spec_patched(data0, orig, repl, 0),
                replacements as nat == spec_patch_count(data0, orig, repl, 0),
            decreases data@.len() + orig_len - i,
        {
            if data.len() < orig_len || i > data.len() - orig_len {
                proof {
                    assert(spec_patched(data@, orig, repl, i as int) == data@);
                    assert(spec_patch_count(data@, orig, repl, i as int) == 0);
                }
                break ;
            }
            let ghost pre = data@;
            if bytes_eq_at(data, &pattern.original, i) {
                write_range(data, i, &pattern.replacement);
                proof {
                    assert(data@ =~= pre.subrange(0, i as int) + repl + pre.subrange(
                        i + orig_len,
                        pre.len() as int,
                    ));
                    assert(spec_patched(pre, orig, repl, i as int) == spec_patched(
                        data@,
                        orig,
                        repl,
                        i + orig_len,
                    ));
                    assert(spec_patch_count(pre, orig, repl, i as int) == 1 + spec_patch_count(
                        data@,
                        orig,
                        repl,
                        i + orig_len,
                    ));
                }
                replacements += 1;
                i += orig_len;
            } else {
                i += 1;
            }
        }
        Ok(replacements)
    }

    /// Apply every pattern in order to in-memory data: the result is the
    /// left-to-right fold of the single-pattern scan over the pattern set,
    /// and the returned total is the sum of the per-pattern counts. The
    /// data never changes length.
    pub fn patch_bytes(&self, data: &mut Vec<u8>) -> (r: Result<u64, ChimeraError>)
        requires
            self.wf(),
            old(data)@.len() <= 0x1000_0000_0000,
            self.patterns@.len() <= 0x8_0000,
        ensures
            final(data)@.len() == old(data)@.len(),
            final(data)@ == spec_patch_all(old(data)@, self.patterns@),
            r matches Ok(n) && n as nat == spec_patch_all_count(old(data)@, self.patterns@),
    {
        let mut total: u64 = 0;
        let mut j: usize = 0;
        let n = self.patterns.len();
        let ghost data0 = old(data)@;
        proof {
            assert(self.patterns@.skip(0) =~= self.patterns@);
        }
        while j < n
            invariant
                self.wf(),
                n == self.patterns@.len(),
                n <= 0x8_0000,
                j <= n,
                data@.len() == old(data)@.len(),
                data@.len() <= 0x1000_0000_0000,
                data0 == old(data)@,
                total <= j * 0x1000_0000_0000,
                spec_patch_all(data0, self.patterns@) == spec_patch_all(
                    data@,
                    self.patterns@.skip(j as int),
                ),
                spec_patch_all_count(data0, self.patterns@) == total + spec_patch_all_count(
                    data@,
                    self.patterns@.skip(j as int),
                ),
            decreases n - j,
        {
            let ghost pre = data@;
            let ghost rest = self.patterns@.skip(j as int);
            let count = match self.apply_pattern(data, &self.patterns[j]) {
                Ok(c) => c,
                Err(e) => {
                    return Err(e);
                },
            };
            proof {
                assert(rest[0] == self.patterns@[j as int]);
                assert(rest.drop_first() =~= self.patterns@.skip(j + 1));
                if self.patterns@[j as int].original@.len() == self.patterns@[
                    j as int
                ].replacement@.len() {
                    lemma_patch_count_le(
                        pre,
                        self.patterns@[j as int].original@,
                        self.patterns@[j as int].replacement@,
                    );
                }
                assert(data@ == spec_patch_one(pre, self.patterns@[j as int]));
                assert(count as nat == spec_patch_one_count(pre, self.patterns@[j as int]));
            }
            assert(count <= pre.len());
            total = total + count as u64;
            j += 1;
        }
        proof {
            assert(self.patterns@.skip(n as int) =~= Seq::<PatchPattern>::empty());
        }
        Ok(total)
    }

    /// Re-check in-memory data: clean iff no original pattern still occurs.
    pub fn verify_bytes(&self, data: &Vec<u8>) -> (clean: bool)
        requires
            self.wf(),
        ensures
            clean == (forall|j: int|
                0 <= j < self.patterns@.len() ==> !contains_pattern(
                    data@,
                    #[trigger] self.patterns@[j].original@,
                )),
    {
        let n = self.patterns.len();
        let mut j: usize = 0;
        while j < n
            invariant
                self.wf(),
                n == self.patterns@.len(),
                j <= n,
                forall|k: int|
                    0 <= k < j ==> !contains_pattern(data@, #[trigger] self.patterns@[k].original@),
            decreases n - j,
        {
            if bytes_contain(data, &self.patterns[j].original) {
                return false;
            }
            j += 1;
        }
        true
    }
}

/// The scan overwrites at most one occurrence per pattern length of data,
/// so the count never exceeds the data length.
proof fn lemma_patch_count_le(data: Seq<u8>, orig: Seq<u8>, repl: Seq<u8>)
    requires
        0 < orig.len(),
        orig.len() == repl.len(),
    ensures
        spec_patch_count(data, orig, repl, 0) <= data.len(),
{
    lemma_patch_count_le_from(data, orig, repl, 0);
}

proof fn lemma_patch_count_le_from(data: Seq<u8>, orig: Seq<u8>, repl: Seq<u8>, i: int)
    requires
        0 < orig.len(),
        orig.len() == repl.len(),
        0 <= i <= data.len(),
    ensures
        spec_patch_count(data, orig, repl, i) <= data.len() - i,
    decreases data.len() - i,
{
    if i + orig.len() > data.len() {
    } else if data.subrange(i, i + orig.len()) == orig {
        let next = data.subrange(0, i) + repl + data.subrange(i + orig.len(), data.len() as int);
        assert(next.len() == data.len());
        lemma_patch_count_le_from(next, orig, repl, i + orig.len());
    } else {
        lemma_patch_count_le_from(data, orig, repl, i + 1);
    }
}

} // verus!
