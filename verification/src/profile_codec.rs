//! The on-disk record format of synthetic profiles: a compact JSON object
//! per profile, and a JSON array as the snapshot file.
//!
//! The encoder renders exactly one canonical text per profile value; the
//! decoder reads that canonical text back. Decoding what encoding produced
//! returns the encoded value: see the completeness clauses on the decoders
//! and [`lemma_encode_like`]. String fields must be plain: no quote, no
//! backslash, no control characters (such values would need escaping, which
//! the canonical format does not use).

use vstd::prelude::*;

verus! {

use crate::text::{is_dec_digit, digit_val, dec_val, spec_dec_u64, spec_dec_i64, u64_to_string,
    i64_to_string};
use crate::identity_grafting::{VisitRecord, ProfileMetadata, BrowserFingerprint, SyntheticProfile,
    record_like, metadata_like, fingerprint_like, profile_like};

// ---------------------------------------------------------------------------
// Plain strings
// ---------------------------------------------------------------------------

/// A character that may stand unescaped in a quoted JSON string.
pub open spec fn plain_char(c: char) -> bool {
    c != '"' && c != '\\' && c as u32 >= 0x20
}

/// A string of plain characters.
pub open spec fn plain_seq(s: Seq<char>) -> bool {
    forall|i: int| 0 <= i < s.len() ==> plain_char(#[trigger] s[i])
}

/// A text reduced to its plain characters, in order.
pub open spec fn keep_plain(s: Seq<char>) -> Seq<char>
    decreases s.len(),
{
    if s.len() == 0 {
        Seq::empty()
    } else {
        keep_plain(s.drop_last()) + (if plain_char(s.last()) {
            seq![s.last()]
        } else {
            Seq::empty()
        })
    }
}

/// Drop every character that may not stand unescaped inside a quoted
/// string: the result is the plain characters of the input, in order, and
/// safe to embed between quotes.
pub fn sanitize_plain(s: &str) -> (out: String)
    ensures
        out@ == keep_plain(s@),
        plain_seq(out@),
{
    let n = s.unicode_len();
    let mut out = String::new();
    let mut i: usize = 0;
    while i < n
        invariant
            n == s@.len(),
            i <= n,
            out@ == keep_plain(s@.take(i as int)),
            plain_seq(out@),
        decreases n - i,
    {
        let c = s.get_char(i);
        let is_plain = if c == '"' || c == '\\' {
            false
        } else {
            c as u32 >= 32
        };
        proof {
            assert(s@.take(i + 1).drop_last() =~= s@.take(i as int));
            assert(s@.take(i + 1).last() == s@[i as int]);
        }
        if is_plain {
            let ghost out0 = out@;
            let piece = s.substring_char(i, i + 1);
            out.append(piece);
            proof {
                assert(piece@ =~= seq![s@[i as int]]);
                assert(out@ =~= keep_plain(s@.take(i + 1)));
                assert forall|t: int| 0 <= t < out@.len() implies plain_char(
                    #[trigger] out@[t],
                ) by {
                    if t < out0.len() {
                        assert(out@[t] == out0[t]);
                    }
                }
            }
        } else {
            proof {
                assert(out@ =~= keep_plain(s@.take(i + 1)));
            }
        }
        i += 1;
    }
    proof {
        assert(s@.take(n as int) =~= s@);
    }
    out
}

// ---------------------------------------------------------------------------
// Splitting hypotheses
// ---------------------------------------------------------------------------

/// The text from position `i` on is `part` followed by `rest`.
pub open spec fn splits_at(s: Seq<char>, i: int, part: Seq<char>, rest: Seq<char>) -> bool {
    s.skip(i) == part + rest
}

/// Peeling the head of a concatenated split: both the head and the tail
/// split at their own positions.
pub proof fn lemma_peel(s: Seq<char>, i: int, a: Seq<char>, b: Seq<char>, rest: Seq<char>)
    requires
        0 <= i <= s.len(),
        splits_at(s, i, a + b, rest),
    ensures
        splits_at(s, i, a, b + rest),
        splits_at(s, i + a.len(), b, rest),
        i + a.len() + b.len() + rest.len() == s.len(),
        a.len() > 0 ==> s[i] == a[0],
        b.len() > 0 ==> s[i + a.len()] == b[0],
{
    assert((a + b) + rest =~= a + (b + rest));
    lemma_starts_with(s, i, a, b + rest);
    assert((b + rest).len() == b.len() + rest.len());
    lemma_starts_with(s, i + a.len(), b, rest);
}

/// Peeling the head of a split: the head is in place, and the tail splits
/// right after it.
pub proof fn lemma_starts_with(s: Seq<char>, i: int, a: Seq<char>, b: Seq<char>)
    requires
        0 <= i <= s.len(),
        s.skip(i) == a + b,
    ensures
        i + a.len() + b.len() == s.len(),
        s.subrange(i, i + a.len()) == a,
        s.skip(i + a.len()) == b,
        forall|t: int| 0 <= t < a.len() ==> s[i + t] == a[t],
        a.len() > 0 ==> s[i] == a[0],
{
    assert(s.skip(i).len() == s.len() - i);
    assert forall|t: int| 0 <= t < a.len() implies s[i + t] == a[t] by {
        assert(s.skip(i)[t] == s[i + t]);
        assert((a + b)[t] == a[t]);
    }
    if a.len() > 0 {
        assert(s[i + 0] == a[0]);
    }
    assert(s.subrange(i, i + a.len()) =~= a);
    assert(s.skip(i + a.len()) =~= b) by {
        assert forall|t: int| 0 <= t < s.len() - i - a.len() implies s.skip(i + a.len())[t] == b[t] by {
            assert(s.skip(i)[a.len() + t] == s[i + a.len() + t]);
            assert((a + b)[a.len() + t] == b[t]);
        }
    }
}

// ---------------------------------------------------------------------------
// Parse primitives
// ---------------------------------------------------------------------------

/// Compare the text at position `i` against a literal; on a match, return
/// the position right after it.
pub fn expect(s: &str, i: usize, lit: &str) -> (r: Option<usize>)
    requires
        i <= s@.len(),
    ensures
        match r {
            Some(j) => j == i + lit@.len() && j <= s@.len() && s@.subrange(i as int, j as int)
                == lit@,
            None => !(i + lit@.len() <= s@.len() && s@.subrange(i as int, i + lit@.len()) == lit@),
        },
{
    let n = lit.unicode_len();
    let sl = s.unicode_len();
    if n > sl - i {
        return None;
    }
    let mut k: usize = 0;
    while k < n
        invariant
            n == lit@.len(),
            sl == s@.len(),
            i + n <= sl,
            k <= n,
            forall|t: int| 0 <= t < k ==> s@[i + t] == lit@[t],
        decreases n - k,
    {
        if s.get_char(i + k) != lit.get_char(k) {
            proof {
                assert(s@.subrange(i as int, i + n) != lit@) by {
                    assert(s@.subrange(i as int, i + n)[k as int] != lit@[k as int]);
                }
            }
            return None;
        }
        k += 1;
    }
    proof {
        assert(s@.subrange(i as int, i + n) =~= lit@);
    }
    Some(i + n)
}

/// Where a plain string followed by a quote was written, the first quote
/// stands right after the string.
proof fn lemma_quote_position(s: Seq<char>, i: int, val: Seq<char>, tail: Seq<char>)
    requires
        0 <= i <= s.len(),
        s.skip(i) == (val + seq!['"']) + tail,
        plain_seq(val),
    ensures
        i + val.len() < s.len(),
        s[i + val.len()] == '"',
        forall|t: int| i <= t < i + val.len() ==> s[t] != '"',
        s.subrange(i, i + val.len()) == val,
{
    assert(val + (seq!['"'] + tail) =~= (val + seq!['"']) + tail);
    lemma_starts_with(s, i, val, seq!['"'] + tail);
    assert(s.skip(i + val.len())[0] == s[i + val.len()]);
    assert((seq!['"'] + tail)[0] == '"');
    assert forall|t: int| i <= t < i + val.len() implies s[t] != '"' by {
        assert(s[t] == val[t - i]);
        assert(plain_char(val[t - i]));
    }
}

/// Read a string body: the characters from `i` up to the first quote, and
/// the position right after that quote. Where a plain string followed by a
/// quote was written at `i`, that string is returned.
pub fn parse_string_body(s: &str, i: usize) -> (r: Option<(String, usize)>)
    requires
        i <= s@.len(),
    ensures
        match r {
            Some((v, j)) => {
                &&& i < j <= s@.len()
                &&& s@[j - 1] == '"'
                &&& forall|t: int| i <= t < j - 1 ==> s@[t] != '"'
                &&& v@ == s@.subrange(i as int, j - 1)
            },
            None => forall|t: int| i <= t < s@.len() ==> s@[t] != '"',
        },
        forall|val: Seq<char>, rest: Seq<char>|
            #[trigger] splits_at(s@, i as int, val + seq!['"'], rest) && plain_seq(val) ==> (
            r matches Some((v, j)) && v@ == val && j == i + val.len() + 1),
{
    let sl = s.unicode_len();
    let mut k: usize = i;
    while k < sl
        invariant
            sl == s@.len(),
            i <= k <= sl,
            forall|t: int| i <= t < k ==> s@[t] != '"',
        decreases sl - k,
    {
        if s.get_char(k) == '"' {
            let body = s.substring_char(i, k);
            let v = String::from_str(body);
            proof {
                assert forall|val: Seq<char>, rest: Seq<char>|
                    #[trigger] splits_at(s@, i as int, val + seq!['"'], rest) && plain_seq(
                        val,
                    ) implies (v@ == val && k + 1 == i + val.len() + 1) by {
                    lemma_quote_position(s@, i as int, val, rest);
                    if k < i + val.len() {
                        assert(s@[k as int] != '"');
                    }
                    if k > i + val.len() {
                        assert(s@[i + val.len()] != '"');
                    }
                    assert(k == i + val.len());
                    assert(v@ == s@.subrange(i as int, i + val.len()));
                }
            }
            return Some((v, k + 1));
        }
        k += 1;
    }
    proof {
        assert forall|val: Seq<char>, rest: Seq<char>|
            !(#[trigger] splits_at(s@, i as int, val + seq!['"'], rest) && plain_seq(val)) by {
            if splits_at(s@, i as int, val + seq!['"'], rest) && plain_seq(val) {
                lemma_quote_position(s@, i as int, val, rest);
                assert(s@[i + val.len()] != '"');
            }
        }
    }
    None
}

/// Position of the first non-digit at or after `i`.
fn scan_digits(s: &str, i: usize) -> (j: usize)
    requires
        i <= s@.len(),
    ensures
        i <= j <= s@.len(),
        forall|t: int| i <= t < j ==> is_dec_digit(s@[t]),
        j == s@.len() || !is_dec_digit(s@[j as int]),
{
    let sl = s.unicode_len();
    let mut k: usize = i;
    while k < sl
        invariant
            sl == s@.len(),
            i <= k <= sl,
            forall|t: int| i <= t < k ==> is_dec_digit(s@[t]),
        decreases sl - k,
    {
        let c = s.get_char(k);
        let u = c as u32;
        if !(48 <= u && u <= 57) {
            return k;
        }
        k += 1;
    }
    sl
}

/// A maximal digit run from `i` to `j`: all digits, ended by the text's
/// end or a non-digit.
pub open spec fn digit_run(s: Seq<char>, i: int, j: int) -> bool {
    &&& i < j <= s.len()
    &&& (forall|t: int| i <= t < j ==> is_dec_digit(s[t]))
    &&& (j == s.len() || !is_dec_digit(s[j]))
}

/// Values of prefixes of a digit run never exceed the run's value.
proof fn lemma_dec_val_prefix_le(s: Seq<char>, k: int)
    requires
        0 <= k <= s.len(),
        forall|t: int| 0 <= t < s.len() ==> is_dec_digit(#[trigger] s[t]),
    ensures
        dec_val(s.take(k)) <= dec_val(s),
    decreases s.len(),
{
    if k == s.len() {
        assert(s.take(k) =~= s);
    } else {
        let pre = s.drop_last();
        assert(forall|t: int| 0 <= t < pre.len() ==> is_dec_digit(#[trigger] pre[t]));
        assert(s.take(k) =~= pre.take(k));
        lemma_dec_val_prefix_le(pre, k);
        assert(dec_val(s) == dec_val(pre) * 10 + digit_val(s.last()));
    }
}

/// A digit run that sits where a decimal rendering was written is that
/// rendering: same length, same characters, same value.
pub proof fn lemma_digit_run_is_dec(s: Seq<char>, i: int, j: int, v: nat, rest: Seq<char>)
    requires
        0 <= i <= j <= s.len(),
        forall|t: int| i <= t < j ==> is_dec_digit(#[trigger] s[t]),
        j == s.len() || !is_dec_digit(s[j]),
        s.skip(i) == spec_dec_u64(v) + rest,
        rest.len() == 0 || !is_dec_digit(rest[0]),
    ensures
        j - i == spec_dec_u64(v).len(),
        s.subrange(i, j) == spec_dec_u64(v),
        dec_val(s.subrange(i, j)) == v,
{
    let d = spec_dec_u64(v);
    crate::text::lemma_dec_u64_props(v);
    lemma_starts_with(s, i, d, rest);
    if j - i < d.len() {
        // the run would stop inside the rendering, on a digit
        assert(s[i + (j - i)] == d[j - i]);
        assert(is_dec_digit(s[j]));
        assert(j < s.len());
        assert(false);
    }
    if j - i > d.len() {
        // the run would continue into `rest`, whose head is no digit
        let t = i + d.len();
        assert(is_dec_digit(s[t]));
        if rest.len() == 0 {
            assert(s.len() == i + d.len());
            assert(false);
        } else {
            assert(s.skip(i)[d.len() as int] == s[t]);
            assert((d + rest)[d.len() as int] == rest[0]);
            assert(false);
        }
    }
    assert(s.subrange(i, j) =~= d);
}

/// Read an unsigned decimal number.
pub fn parse_u64(s: &str, i: usize) -> (r: Option<(u64, usize)>)
    requires
        i <= s@.len(),
    ensures
        match r {
            Some((v, j)) => digit_run(s@, i as int, j as int) && v as nat == dec_val(
                s@.subrange(i as int, j as int),
            ),
            None => i == s@.len() || !is_dec_digit(s@[i as int]) || (exists|j: int|
                #[trigger] digit_run(s@, i as int, j) && dec_val(s@.subrange(i as int, j))
                    > u64::MAX),
        },
        forall|v: u64, rest: Seq<char>|
            #[trigger] splits_at(s@, i as int, spec_dec_u64(v as nat), rest) && (rest.len() == 0
                || !is_dec_digit(rest[0])) ==> (r matches Some((w, j)) && w == v && j == i
                + spec_dec_u64(v as nat).len()),
{
    let j = scan_digits(s, i);
    if j == i {
        proof {
            assert forall|v: u64, rest: Seq<char>|
                !(#[trigger] splits_at(s@, i as int, spec_dec_u64(v as nat), rest) && (rest.len()
                    == 0 || !is_dec_digit(rest[0]))) by {
                if splits_at(s@, i as int, spec_dec_u64(v as nat), rest) && (rest.len() == 0
                    || !is_dec_digit(rest[0])) {
                    lemma_u64_split_facts(s@, i as int, v as nat, rest);
                }
            }
        }
        return None;
    }
    let mut acc: u64 = 0;
    let mut k: usize = i;
    while k < j
        invariant
            i <= k <= j <= s@.len(),
            i < j,
            forall|t: int| i <= t < j ==> is_dec_digit(s@[t]),
            j == s@.len() || !is_dec_digit(s@[j as int]),
            acc as nat == dec_val(s@.subrange(i as int, k as int)),
        decreases j - k,
    {
        let c = s.get_char(k);
        let u = c as u32;
        let d: u64 = ((u - 48) as u64);
        let ghost run = s@.subrange(i as int, j as int);
        let ghost prefix_next = s@.subrange(i as int, k + 1);
        proof {
            assert(prefix_next.drop_last() =~= s@.subrange(i as int, k as int));
            assert(prefix_next.last() == s@[k as int]);
            assert(dec_val(prefix_next) == acc * 10 + digit_val(s@[k as int]));
            assert(digit_val(s@[k as int]) == d);
        }
        if acc > (u64::MAX - d) / 10 {
            proof {
                // the run's value exceeds the range: its prefix already does
                assert(acc * 10 + d > u64::MAX) by {
                    assert((u64::MAX - d) / 10 * 10 + 10 > u64::MAX - d) by (nonlinear_arith)
                        requires d <= 9;
                    assert(acc * 10 >= ((u64::MAX - d) / 10 + 1) * 10) by (nonlinear_arith)
                        requires acc >= (u64::MAX - d) / 10 + 1;
                }
                assert(forall|t: int| 0 <= t < run.len() ==> is_dec_digit(#[trigger] run[t]));
                assert(run.take(k + 1 - i) =~= prefix_next);
                lemma_dec_val_prefix_le(run, k + 1 - i);
                assert(dec_val(run) > u64::MAX);
                assert(digit_run(s@, i as int, j as int));
                assert forall|v: u64, rest: Seq<char>|
                    !(#[trigger] splits_at(s@, i as int, spec_dec_u64(v as nat), rest) && (
                    rest.len() == 0 || !is_dec_digit(rest[0]))) by {
                    if splits_at(s@, i as int, spec_dec_u64(v as nat), rest) && (rest.len() == 0
                        || !is_dec_digit(rest[0])) {
                        lemma_u64_split_facts(s@, i as int, v as nat, rest);
                        assert(dec_val(run) == v as nat);
                    }
                }
            }
            return None;
        }
        proof {
            assert(acc * 10 + d <= u64::MAX) by {
                assert(acc * 10 <= (u64::MAX - d) / 10 * 10) by (nonlinear_arith)
                    requires acc <= (u64::MAX - d) / 10;
                assert((u64::MAX - d) / 10 * 10 <= u64::MAX - d) by (nonlinear_arith);
            }
        }
        acc = acc * 10 + d;
        k += 1;
    }
    proof {
        assert(digit_run(s@, i as int, j as int));
        assert forall|v: u64, rest: Seq<char>|
            #[trigger] splits_at(s@, i as int, spec_dec_u64(v as nat), rest) && (rest.len() == 0
                || !is_dec_digit(rest[0])) implies (acc == v && j == i + spec_dec_u64(
            v as nat,
        ).len()) by {
            lemma_u64_split_facts(s@, i as int, v as nat, rest);
        }
    }
    Some((acc, j))
}

/// Read a decimal number with an optional leading minus sign.
pub fn parse_i64(s: &str, i: usize) -> (r: Option<(i64, usize)>)
    requires
        i <= s@.len(),
    ensures
        match r {
            Some((v, j)) => i < j <= s@.len(),
            None => true,
        },
        forall|v: int, rest: Seq<char>|
            #[trigger] splits_at(s@, i as int, spec_dec_i64(v), rest) && i64::MIN <= v <= i64::MAX
                && (rest.len() == 0 || !is_dec_digit(rest[0])) ==> (r matches Some((w, j)) && w == v
                && j == i + spec_dec_i64(v).len()),
{
    let sl = s.unicode_len();
    if i < sl && s.get_char(i) == '-' {
        let r = parse_u64(s, i + 1);
        match r {
            Some((mag, j)) => {
                if mag > 0x8000_0000_0000_0000u64 {
                    proof {
                        lemma_no_negative_split(s@, i as int, mag as nat, j as int);
                    }
                    return None;
                }
                let v: i64 = if mag == 0x8000_0000_0000_0000u64 {
                    i64::MIN
                } else {
                    -((mag) as i64)
                };
                proof {
                    assert forall|gv: int, rest: Seq<char>|
                        #[trigger] splits_at(s@, i as int, spec_dec_i64(gv), rest) && i64::MIN <= gv
                            <= i64::MAX && (rest.len() == 0 || !is_dec_digit(rest[0])) implies (v
                        == gv && j == i + spec_dec_i64(gv).len()) by {
                        lemma_i64_split_negative(s@, i as int, gv, rest);
                        lemma_digit_run_is_dec(s@, i + 1, j as int, (-gv) as nat, rest);
                    }
                }
                Some((v, j))
            },
            None => {
                proof {
                    assert forall|gv: int, rest: Seq<char>|
                        !(#[trigger] splits_at(s@, i as int, spec_dec_i64(gv), rest) && i64::MIN
                            <= gv <= i64::MAX && (rest.len() == 0 || !is_dec_digit(
                            rest[0],
                        ))) by {
                        if splits_at(s@, i as int, spec_dec_i64(gv), rest) && i64::MIN <= gv
                            <= i64::MAX && (rest.len() == 0 || !is_dec_digit(rest[0])) {
                            lemma_i64_split_negative(s@, i as int, gv, rest);
                            lemma_u64_split_facts(s@, (i + 1) as int, (-gv) as nat, rest);
                        }
                    }
                }
                None
            },
        }
    } else {
        let r = parse_u64(s, i);
        match r {
            Some((mag, j)) => {
                if mag > i64::MAX as u64 {
                    proof {
                        lemma_no_large_positive_split(s@, i as int, mag as nat, j as int);
                    }
                    return None;
                }
                let v: i64 = mag as i64;
                proof {
                    assert forall|gv: int, rest: Seq<char>|
                        #[trigger] splits_at(s@, i as int, spec_dec_i64(gv), rest) && i64::MIN <= gv
                            <= i64::MAX && (rest.len() == 0 || !is_dec_digit(rest[0])) implies (v
                        == gv && j == i + spec_dec_i64(gv).len()) by {
                        lemma_i64_split_positive(s@, i as int, gv, rest, sl as int);
                        lemma_digit_run_is_dec(s@, i as int, j as int, gv as nat, rest);
                    }
                }
                Some((v, j))
            },
            None => {
                proof {
                    assert forall|gv: int, rest: Seq<char>|
                        !(#[trigger] splits_at(s@, i as int, spec_dec_i64(gv), rest) && i64::MIN
                            <= gv <= i64::MAX && (rest.len() == 0 || !is_dec_digit(
                            rest[0],
                        ))) by {
                        if splits_at(s@, i as int, spec_dec_i64(gv), rest) && i64::MIN <= gv
                            <= i64::MAX && (rest.len() == 0 || !is_dec_digit(rest[0])) {
                            lemma_i64_split_positive(s@, i as int, gv, rest, sl as int);
                            lemma_u64_split_facts(s@, i as int, gv as nat, rest);
                        }
                    }
                }
                None
            },
        }
    }
}

/// Under a negative split, the minus sign is in place and the magnitude's
/// rendering follows it.
proof fn lemma_i64_split_negative(s: Seq<char>, i: int, gv: int, rest: Seq<char>)
    requires
        0 <= i <= s.len(),
        splits_at(s, i, spec_dec_i64(gv), rest),
        i < s.len() && s[i] == '-',
    ensures
        gv < 0,
        splits_at(s, i + 1, spec_dec_u64((-gv) as nat), rest),
{
    crate::text::lemma_dec_u64_props(if gv < 0 {
        (-gv) as nat
    } else {
        gv as nat
    });
    lemma_starts_with(s, i, spec_dec_i64(gv), rest);
    if gv >= 0 {
        assert(s[i] == spec_dec_u64(gv as nat)[0]);
        assert(is_dec_digit(s[i]));
        assert(!is_dec_digit('-'));
        assert(false);
    }
    let d = spec_dec_u64((-gv) as nat);
    assert(s.skip(i + 1) =~= d + rest) by {
        lemma_starts_with(s, i, seq!['-'] + d, rest);
        assert forall|t: int| 0 <= t < s.len() - i - 1 implies s.skip(i + 1)[t] == (d + rest)[t] by {
            assert(s.skip(i)[t + 1] == s[i + 1 + t]);
            assert((spec_dec_i64(gv) + rest)[t + 1] == (d + rest)[t]);
        }
    }
}

/// Under a positive split, the head is a digit, not a minus sign.
proof fn lemma_i64_split_positive(s: Seq<char>, i: int, gv: int, rest: Seq<char>, sl: int)
    requires
        0 <= i <= s.len(),
        sl == s.len(),
        splits_at(s, i, spec_dec_i64(gv), rest),
        !(i < s.len() && s[i] == '-'),
    ensures
        gv >= 0,
        splits_at(s, i, spec_dec_u64(gv as nat), rest),
        i < s.len(),
{
    crate::text::lemma_dec_u64_props(if gv < 0 {
        (-gv) as nat
    } else {
        gv as nat
    });
    lemma_starts_with(s, i, spec_dec_i64(gv), rest);
    assert(spec_dec_i64(gv).len() > 0);
    assert(i < s.len());
    if gv < 0 {
        assert(s[i] == spec_dec_i64(gv)[0]);
        assert(spec_dec_i64(gv)[0] == '-');
        assert(false);
    }
}

/// Where a decimal rendering of an in-range value sits, the head is a
/// digit and every maximal digit run from there is that rendering.
proof fn lemma_u64_split_facts(s: Seq<char>, i: int, v: nat, rest: Seq<char>)
    requires
        0 <= i <= s.len(),
        s.skip(i) == spec_dec_u64(v) + rest,
        rest.len() == 0 || !is_dec_digit(rest[0]),
    ensures
        i < s.len(),
        is_dec_digit(s[i]),
        forall|j: int|
            #[trigger] digit_run(s, i, j) ==> j == i + spec_dec_u64(v).len() && dec_val(
                s.subrange(i, j),
            ) == v,
{
    crate::text::lemma_dec_u64_props(v);
    lemma_starts_with(s, i, spec_dec_u64(v), rest);
    assert(i < s.len());
    assert(s[i] == spec_dec_u64(v)[0]);
    assert forall|j: int| #[trigger] digit_run(s, i, j) implies j == i + spec_dec_u64(v).len()
        && dec_val(s.subrange(i, j)) == v by {
        lemma_digit_run_is_dec(s, i, j, v, rest);
    }
}

/// A magnitude above the signed range contradicts a negative split.
proof fn lemma_no_negative_split(s: Seq<char>, i: int, mag: nat, j: int)
    requires
        0 <= i,
        i < s.len() && s[i] == '-',
        digit_run(s, i + 1, j),
        mag as nat == dec_val(s.subrange(i + 1, j)),
        mag > 0x8000_0000_0000_0000,
    ensures
        forall|gv: int, rest: Seq<char>|
            !(#[trigger] splits_at(s, i, spec_dec_i64(gv), rest) && i64::MIN <= gv <= i64::MAX && (
            rest.len() == 0 || !is_dec_digit(rest[0]))),
{
    assert forall|gv: int, rest: Seq<char>|
        !(#[trigger] splits_at(s, i, spec_dec_i64(gv), rest) && i64::MIN <= gv <= i64::MAX && (
        rest.len() == 0 || !is_dec_digit(rest[0]))) by {
        if splits_at(s, i, spec_dec_i64(gv), rest) && i64::MIN <= gv <= i64::MAX && (rest.len()
            == 0 || !is_dec_digit(rest[0])) {
            lemma_i64_split_negative(s, i, gv, rest);
            lemma_digit_run_is_dec(s, i + 1, j, (-gv) as nat, rest);
        }
    }
}

// ---------------------------------------------------------------------------
// Visit records
// ---------------------------------------------------------------------------

/// A visit record whose strings are plain.
pub open spec fn wf_record(r: &VisitRecord) -> bool {
    plain_seq(r.url@) && plain_seq(r.title@)
}

/// Canonical text of a visit record, written as the chain the decoder
/// peels: each step is one literal, one plain string, or one number.
pub open spec fn enc_record(r: &VisitRecord) -> Seq<char> {
    "{\"url\":\""@ + rec_tail1(r)
}

/// Record text after the opening key.
pub open spec fn rec_tail1(r: &VisitRecord) -> Seq<char> {
    (r.url@ + seq!['"']) + rec_tail2(r)
}

/// Record text after the url.
pub open spec fn rec_tail2(r: &VisitRecord) -> Seq<char> {
    ",\"title\":\""@ + rec_tail3(r)
}

/// Record text from the title on.
pub open spec fn rec_tail3(r: &VisitRecord) -> Seq<char> {
    (r.title@ + seq!['"']) + rec_tail4(r)
}

/// Record text after the title.
pub open spec fn rec_tail4(r: &VisitRecord) -> Seq<char> {
    ",\"visit_count\":"@ + rec_tail5(r)
}

/// Record text from the visit count on.
pub open spec fn rec_tail5(r: &VisitRecord) -> Seq<char> {
    spec_dec_u64(r.visit_count as nat) + rec_tail6(r)
}

/// Record text after the visit count.
pub open spec fn rec_tail6(r: &VisitRecord) -> Seq<char> {
    ",\"last_visit\":"@ + rec_tail7(r)
}

/// Record text from the last visit on.
pub open spec fn rec_tail7(r: &VisitRecord) -> Seq<char> {
    spec_dec_u64(r.last_visit as nat) + rec_tail8(r)
}

/// Record text after the last visit.
pub open spec fn rec_tail8(r: &VisitRecord) -> Seq<char> {
    ",\"duration_seconds\":"@ + rec_tail9(r)
}

/// Record text from the duration on.
pub open spec fn rec_tail9(r: &VisitRecord) -> Seq<char> {
    spec_dec_u64(r.duration_seconds as nat) + "}"@
}

/// Render one visit record.
pub fn encode_record(r: &VisitRecord) -> (out: String)
    ensures
        out@ == enc_record(r),
{
    let mut out = String::new();
    out.append("{\"url\":\"");
    out.append(r.url.as_str());
    out.append("\"");
    out.append(",\"title\":\"");
    out.append(r.title.as_str());
    out.append("\"");
    out.append(",\"visit_count\":");
    let vc = u64_to_string(r.visit_count as u64);
    out.append(vc.as_str());
    out.append(",\"last_visit\":");
    let lv = u64_to_string(r.last_visit);
    out.append(lv.as_str());
    out.append(",\"duration_seconds\":");
    let ds = u64_to_string(r.duration_seconds as u64);
    out.append(ds.as_str());
    out.append("}");
    proof {
        assert(seq!['"'] =~= "\""@) by {
            reveal_strlit("\"");
        }
        assert(enc_record(r) == "{\"url\":\""@ + rec_tail1(r));
        assert(rec_tail1(r) == (r.url@ + seq!['"']) + rec_tail2(r));
        assert(rec_tail2(r) == ",\"title\":\""@ + rec_tail3(r));
        assert(rec_tail3(r) == (r.title@ + seq!['"']) + rec_tail4(r));
        assert(rec_tail4(r) == ",\"visit_count\":"@ + rec_tail5(r));
        assert(rec_tail5(r) == spec_dec_u64(r.visit_count as nat) + rec_tail6(r));
        assert(rec_tail6(r) == ",\"last_visit\":"@ + rec_tail7(r));
        assert(rec_tail7(r) == spec_dec_u64(r.last_visit as nat) + rec_tail8(r));
        assert(rec_tail8(r) == ",\"duration_seconds\":"@ + rec_tail9(r));
        assert(rec_tail9(r) == spec_dec_u64(r.duration_seconds as nat) + "}"@);
        assert(out@ =~= enc_record(r));
    }
    out
}

/// Read one visit record.
pub fn parse_record(s: &str, i: usize) -> (r: Option<(VisitRecord, usize)>)
    requires
        i <= s@.len(),
    ensures
        r matches Some((q, j)) ==> i < j <= s@.len(),
        forall|g: VisitRecord, rest: Seq<char>|
            #[trigger] splits_at(s@, i as int, enc_record(&g), rest) && wf_record(&g) ==> (
            r matches Some((q, j)) && record_like(&q, &g) && j == i + enc_record(&g).len()),
{
    proof {
        reveal_strlit(",\"last_visit\":");
        reveal_strlit(",\"duration_seconds\":");
    }
    let i1 = match expect(s, i, "{\"url\":\"") {
        Some(x) => x,
        None => {
            proof {
                assert forall|g: VisitRecord, rest: Seq<char>|
                    !(#[trigger] splits_at(s@, i as int, enc_record(&g), rest) && wf_record(
                        &g,
                    )) by {
                    if splits_at(s@, i as int, enc_record(&g), rest) && wf_record(&g) {
                        lemma_peel(s@, i as int, "{\"url\":\""@, rec_tail1(&g), rest);
                        lemma_starts_with(s@, i as int, "{\"url\":\""@, rec_tail1(&g) + rest);
                    }
                }
            }
            return None;
        },
    };
    proof {
        assert forall|g: VisitRecord, rest: Seq<char>|
            #[trigger] splits_at(s@, i as int, enc_record(&g), rest) && wf_record(&g) implies (
        splits_at(s@, i1 as int, rec_tail1(&g), rest) && i + enc_record(&g).len() + rest.len()
            == s@.len()) by {
            lemma_peel(s@, i as int, "{\"url\":\""@, rec_tail1(&g), rest);
        }
    }
    let (url_s, i2) = match parse_string_body(s, i1) {
        Some(x) => x,
        None => {
            proof {
                assert forall|g: VisitRecord, rest: Seq<char>|
                    !(#[trigger] splits_at(s@, i as int, enc_record(&g), rest) && wf_record(
                        &g,
                    )) by {
                    if splits_at(s@, i as int, enc_record(&g), rest) && wf_record(&g) {
                        lemma_peel(s@, i1 as int, g.url@ + seq!['"'], rec_tail2(&g), rest);
                    }
                }
            }
            return None;
        },
    };
    proof {
        assert forall|g: VisitRecord, rest: Seq<char>|
            #[trigger] splits_at(s@, i as int, enc_record(&g), rest) && wf_record(&g) implies (url_s@
            == g.url@ && splits_at(s@, i2 as int, rec_tail2(&g), rest)) by {
            lemma_peel(s@, i1 as int, g.url@ + seq!['"'], rec_tail2(&g), rest);
        }
    }
    let i3 = match expect(s, i2, ",\"title\":\"") {
        Some(x) => x,
        None => {
            proof {
                assert forall|g: VisitRecord, rest: Seq<char>|
                    !(#[trigger] splits_at(s@, i as int, enc_record(&g), rest) && wf_record(
                        &g,
                    )) by {
                    if splits_at(s@, i as int, enc_record(&g), rest) && wf_record(&g) {
                        lemma_peel(s@, i2 as int, ",\"title\":\""@, rec_tail3(&g), rest);
                        lemma_starts_with(s@, i2 as int, ",\"title\":\""@, rec_tail3(&g) + rest);
                    }
                }
            }
            return None;
        },
    };
    proof {
        assert forall|g: VisitRecord, rest: Seq<char>|
            #[trigger] splits_at(s@, i as int, enc_record(&g), rest) && wf_record(&g) implies (
        splits_at(s@, i3 as int, rec_tail3(&g), rest)) by {
            lemma_peel(s@, i2 as int, ",\"title\":\""@, rec_tail3(&g), rest);
        }
    }
    let (title_s, i4) = match parse_string_body(s, i3) {
        Some(x) => x,
        None => {
            proof {
                assert forall|g: VisitRecord, rest: Seq<char>|
                    !(#[trigger] splits_at(s@, i as int, enc_record(&g), rest) && wf_record(
                        &g,
                    )) by {
                    if splits_at(s@, i as int, enc_record(&g), rest) && wf_record(&g) {
                        lemma_peel(s@, i3 as int, g.title@ + seq!['"'], rec_tail4(&g), rest);
                    }
                }
            }
            return None;
        },
    };
    proof {
        assert forall|g: VisitRecord, rest: Seq<char>|
            #[trigger] splits_at(s@, i as int, enc_record(&g), rest) && wf_record(&g) implies (
        title_s@ == g.title@ && splits_at(s@, i4 as int, rec_tail4(&g), rest)) by {
            lemma_peel(s@, i3 as int, g.title@ + seq!['"'], rec_tail4(&g), rest);
        }
    }
    let i5 = match expect(s, i4, ",\"visit_count\":") {
        Some(x) => x,
        None => {
            proof {
                assert forall|g: VisitRecord, rest: Seq<char>|
                    !(#[trigger] splits_at(s@, i as int, enc_record(&g), rest) && wf_record(
                        &g,
                    )) by {
                    if splits_at(s@, i as int, enc_record(&g), rest) && wf_record(&g) {
                        lemma_peel(s@, i4 as int, ",\"visit_count\":"@, rec_tail5(&g), rest);
                        lemma_starts_with(
                            s@,
                            i4 as int,
                            ",\"visit_count\":"@,
                            rec_tail5(&g) + rest,
                        );
                    }
                }
            }
            return None;
        },
    };
    proof {
        assert forall|g: VisitRecord, rest: Seq<char>|
            #[trigger] splits_at(s@, i as int, enc_record(&g), rest) && wf_record(&g) implies (
        splits_at(s@, i5 as int, rec_tail5(&g), rest)) by {
            lemma_peel(s@, i4 as int, ",\"visit_count\":"@, rec_tail5(&g), rest);
        }
    }
    let (vc64, i6) = match parse_u64(s, i5) {
        Some(x) => x,
        None => {
            proof {
                assert forall|g: VisitRecord, rest: Seq<char>|
                    !(#[trigger] splits_at(s@, i as int, enc_record(&g), rest) && wf_record(
                        &g,
                    )) by {
                    if splits_at(s@, i as int, enc_record(&g), rest) && wf_record(&g) {
                        lemma_rec_count_split(s@, i5 as int, &g, rest);
                    }
                }
            }
            return None;
        },
    };
    proof {
        assert forall|g: VisitRecord, rest: Seq<char>|
            #[trigger] splits_at(s@, i as int, enc_record(&g), rest) && wf_record(&g) implies (vc64
            == g.visit_count as u64 && splits_at(s@, i6 as int, rec_tail6(&g), rest)) by {
            lemma_rec_count_split(s@, i5 as int, &g, rest);
        }
    }
    if vc64 > u32::MAX as u64 {
        proof {
            assert forall|g: VisitRecord, rest: Seq<char>|
                !(#[trigger] splits_at(s@, i as int, enc_record(&g), rest) && wf_record(&g)) by {}
        }
        return None;
    }
    let i7 = match expect(s, i6, ",\"last_visit\":") {
        Some(x) => x,
        None => {
            proof {
                assert forall|g: VisitRecord, rest: Seq<char>|
                    !(#[trigger] splits_at(s@, i as int, enc_record(&g), rest) && wf_record(
                        &g,
                    )) by {
                    if splits_at(s@, i as int, enc_record(&g), rest) && wf_record(&g) {
                        lemma_peel(s@, i6 as int, ",\"last_visit\":"@, rec_tail7(&g), rest);
                        lemma_starts_with(s@, i6 as int, ",\"last_visit\":"@, rec_tail7(&g) + rest);
                    }
                }
            }
            return None;
        },
    };
    proof {
        assert forall|g: VisitRecord, rest: Seq<char>|
            #[trigger] splits_at(s@, i as int, enc_record(&g), rest) && wf_record(&g) implies (
        splits_at(s@, i7 as int, rec_tail7(&g), rest)) by {
            lemma_peel(s@, i6 as int, ",\"last_visit\":"@, rec_tail7(&g), rest);
        }
    }
    let (lv64, i8) = match parse_u64(s, i7) {
        Some(x) => x,
        None => {
            proof {
                assert forall|g: VisitRecord, rest: Seq<char>|
                    !(#[trigger] splits_at(s@, i as int, enc_record(&g), rest) && wf_record(
                        &g,
                    )) by {
                    if splits_at(s@, i as int, enc_record(&g), rest) && wf_record(&g) {
                        lemma_rec_visit_split(s@, i7 as int, &g, rest);
                    }
                }
            }
            return None;
        },
    };
    proof {
        assert forall|g: VisitRecord, rest: Seq<char>|
            #[trigger] splits_at(s@, i as int, enc_record(&g), rest) && wf_record(&g) implies (lv64
            == g.last_visit && splits_at(s@, i8 as int, rec_tail8(&g), rest)) by {
            lemma_rec_visit_split(s@, i7 as int, &g, rest);
        }
    }
    let i9 = match expect(s, i8, ",\"duration_seconds\":") {
        Some(x) => x,
        None => {
            proof {
                assert forall|g: VisitRecord, rest: Seq<char>|
                    !(#[trigger] splits_at(s@, i as int, enc_record(&g), rest) && wf_record(
                        &g,
                    )) by {
                    if splits_at(s@, i as int, enc_record(&g), rest) && wf_record(&g) {
                        lemma_peel(s@, i8 as int, ",\"duration_seconds\":"@, rec_tail9(&g), rest);
                        lemma_starts_with(
                            s@,
                            i8 as int,
                            ",\"duration_seconds\":"@,
                            rec_tail9(&g) + rest,
                        );
                    }
                }
            }
            return None;
        },
    };
    proof {
        assert forall|g: VisitRecord, rest: Seq<char>|
            #[trigger] splits_at(s@, i as int, enc_record(&g), rest) && wf_record(&g) implies (
        splits_at(s@, i9 as int, rec_tail9(&g), rest)) by {
            lemma_peel(s@, i8 as int, ",\"duration_seconds\":"@, rec_tail9(&g), rest);
        }
    }
    let (ds64, i10) = match parse_u64(s, i9) {
        Some(x) => x,
        None => {
            proof {
                assert forall|g: VisitRecord, rest: Seq<char>|
                    !(#[trigger] splits_at(s@, i as int, enc_record(&g), rest) && wf_record(
                        &g,
                    )) by {
                    if splits_at(s@, i as int, enc_record(&g), rest) && wf_record(&g) {
                        lemma_rec_duration_split(s@, i9 as int, &g, rest);
                    }
                }
            }
            return None;
        },
    };
    proof {
        assert forall|g: VisitRecord, rest: Seq<char>|
            #[trigger] splits_at(s@, i as int, enc_record(&g), rest) && wf_record(&g) implies (ds64
            == g.duration_seconds as u64 && splits_at(s@, i10 as int, "}"@, rest)) by {
            lemma_rec_duration_split(s@, i9 as int, &g, rest);
        }
    }
    if ds64 > u32::MAX as u64 {
        proof {
            assert forall|g: VisitRecord, rest: Seq<char>|
                !(#[trigger] splits_at(s@, i as int, enc_record(&g), rest) && wf_record(&g)) by {}
        }
        return None;
    }
    let i11 = match expect(s, i10, "}") {
        Some(x) => x,
        None => {
            proof {
                assert forall|g: VisitRecord, rest: Seq<char>|
                    !(#[trigger] splits_at(s@, i as int, enc_record(&g), rest) && wf_record(
                        &g,
                    )) by {
                    if splits_at(s@, i as int, enc_record(&g), rest) && wf_record(&g) {
                        lemma_starts_with(s@, i10 as int, "}"@, rest);
                    }
                }
            }
            return None;
        },
    };
    let q = VisitRecord {
        url: url_s,
        title: title_s,
        visit_count: vc64 as u32,
        last_visit: lv64,
        duration_seconds: ds64 as u32,
    };
    proof {
        assert forall|g: VisitRecord, rest: Seq<char>|
            #[trigger] splits_at(s@, i as int, enc_record(&g), rest) && wf_record(&g) implies (
        record_like(&q, &g) && i11 == i + enc_record(&g).len()) by {
            lemma_starts_with(s@, i10 as int, "}"@, rest);
        }
    }
    Some((q, i11))
}

/// At the visit-count position, the number and its non-digit boundary.
proof fn lemma_rec_count_split(s: Seq<char>, i5: int, g: &VisitRecord, rest: Seq<char>)
    requires
        0 <= i5 <= s.len(),
        splits_at(s, i5, rec_tail5(g), rest),
    ensures
        splits_at(s, i5, spec_dec_u64((g.visit_count as u64) as nat), rec_tail6(g) + rest),
        (rec_tail6(g) + rest).len() == 0 || !is_dec_digit((rec_tail6(g) + rest)[0]),
        splits_at(s, i5 + spec_dec_u64((g.visit_count as u64) as nat).len(), rec_tail6(g), rest),
{
    lemma_peel(s, i5, spec_dec_u64(g.visit_count as nat), rec_tail6(g), rest);
    proof_rec_tail6_head(g, rest);
}

/// The text after the visit count starts with a comma.
proof fn proof_rec_tail6_head(g: &VisitRecord, rest: Seq<char>)
    ensures
        (rec_tail6(g) + rest).len() > 0,
        (rec_tail6(g) + rest)[0] == ',',
        !is_dec_digit(','),
{
    reveal_strlit(",\"last_visit\":");
    assert((rec_tail6(g) + rest)[0] == rec_tail6(g)[0]);
    assert(rec_tail6(g)[0] == ",\"last_visit\":"@[0]);
}

/// At the last-visit position, the number and its non-digit boundary.
proof fn lemma_rec_visit_split(s: Seq<char>, i7: int, g: &VisitRecord, rest: Seq<char>)
    requires
        0 <= i7 <= s.len(),
        splits_at(s, i7, rec_tail7(g), rest),
    ensures
        splits_at(s, i7, spec_dec_u64(g.last_visit as nat), rec_tail8(g) + rest),
        (rec_tail8(g) + rest).len() == 0 || !is_dec_digit((rec_tail8(g) + rest)[0]),
        splits_at(s, i7 + spec_dec_u64(g.last_visit as nat).len(), rec_tail8(g), rest),
{
    lemma_peel(s, i7, spec_dec_u64(g.last_visit as nat), rec_tail8(g), rest);
    reveal_strlit(",\"duration_seconds\":");
    assert((rec_tail8(g) + rest)[0] == rec_tail8(g)[0]);
    assert(rec_tail8(g)[0] == ",\"duration_seconds\":"@[0]);
}

/// At the duration position, the number and its non-digit boundary.
proof fn lemma_rec_duration_split(s: Seq<char>, i9: int, g: &VisitRecord, rest: Seq<char>)
    requires
        0 <= i9 <= s.len(),
        splits_at(s, i9, rec_tail9(g), rest),
    ensures
        splits_at(s, i9, spec_dec_u64((g.duration_seconds as u64) as nat), "}"@ + rest),
        ("}"@ + rest).len() == 0 || !is_dec_digit(("}"@ + rest)[0]),
        splits_at(s, i9 + spec_dec_u64((g.duration_seconds as u64) as nat).len(), "}"@, rest),
{
    lemma_peel(s, i9, spec_dec_u64(g.duration_seconds as nat), "}"@, rest);
    reveal_strlit("}");
    assert(("}"@ + rest)[0] == "}"@[0]);
}

// ---------------------------------------------------------------------------
// Metadata
// ---------------------------------------------------------------------------

/// Metadata whose strings are plain.
pub open spec fn wf_metadata(m: &ProfileMetadata) -> bool {
    plain_seq(m.os@) && plain_seq(m.browser@) && plain_seq(m.timezone@) && plain_seq(m.language@)
}

/// Canonical text of a metadata record.
pub open spec fn enc_metadata(m: &ProfileMetadata) -> Seq<char> {
    "{\"os\":\""@ + md_tail1(m)
}

/// Metadata text from the OS label on.
pub open spec fn md_tail1(m: &ProfileMetadata) -> Seq<char> {
    (m.os@ + seq!['"']) + md_tail2(m)
}

/// Metadata text after the OS label.
pub open spec fn md_tail2(m: &ProfileMetadata) -> Seq<char> {
    ",\"browser\":\""@ + md_tail3(m)
}

/// Metadata text from the browser label on.
pub open spec fn md_tail3(m: &ProfileMetadata) -> Seq<char> {
    (m.browser@ + seq!['"']) + md_tail4(m)
}

/// Metadata text after the browser label.
pub open spec fn md_tail4(m: &ProfileMetadata) -> Seq<char> {
    ",\"viewport\":["@ + md_tail5(m)
}

/// Metadata text from the viewport width on.
pub open spec fn md_tail5(m: &ProfileMetadata) -> Seq<char> {
    spec_dec_u64(m.viewport.0 as nat) + md_tail6(m)
}

/// Metadata text between the viewport components.
pub open spec fn md_tail6(m: &ProfileMetadata) -> Seq<char> {
    ","@ + md_tail7(m)
}

/// Metadata text from the viewport height on.
pub open spec fn md_tail7(m: &ProfileMetadata) -> Seq<char> {
    spec_dec_u64(m.viewport.1 as nat) + md_tail8(m)
}

/// Metadata text after the viewport.
pub open spec fn md_tail8(m: &ProfileMetadata) -> Seq<char> {
    "],\"timezone\":\""@ + md_tail9(m)
}

/// Metadata text from the time zone on.
pub open spec fn md_tail9(m: &ProfileMetadata) -> Seq<char> {
    (m.timezone@ + seq!['"']) + md_tail10(m)
}

/// Metadata text after the time zone.
pub open spec fn md_tail10(m: &ProfileMetadata) -> Seq<char> {
    ",\"language\":\""@ + md_tail11(m)
}

/// Metadata text from the language on.
pub open spec fn md_tail11(m: &ProfileMetadata) -> Seq<char> {
    (m.language@ + seq!['"']) + md_tail12(m)
}

/// Metadata text after the language.
pub open spec fn md_tail12(m: &ProfileMetadata) -> Seq<char> {
    ",\"created_at\":"@ + md_tail13(m)
}

/// Metadata text from the creation time on.
pub open spec fn md_tail13(m: &ProfileMetadata) -> Seq<char> {
    spec_dec_u64(m.created_at as nat) + md_tail14(m)
}

/// Metadata text after the creation time.
pub open spec fn md_tail14(m: &ProfileMetadata) -> Seq<char> {
    ",\"last_used\":"@ + md_tail15(m)
}

/// Metadata text from the last-use time on.
pub open spec fn md_tail15(m: &ProfileMetadata) -> Seq<char> {
    spec_dec_u64(m.last_used as nat) + "}"@
}

/// Render a metadata record.
pub fn encode_metadata(m: &ProfileMetadata) -> (out: String)
    ensures
        out@ == enc_metadata(m),
{
    let lu = u64_to_string(m.last_used);
    let mut t15 = lu;
    t15.append("}");
    let mut t14 = String::from_str(",\"last_used\":");
    t14.append(t15.as_str());
    let ca = u64_to_string(m.created_at);
    let mut t13 = ca;
    t13.append(t14.as_str());
    let mut t12 = String::from_str(",\"created_at\":");
    t12.append(t13.as_str());
    let mut t11 = m.language.clone();
    t11.append("\"");
    t11.append(t12.as_str());
    let mut t10 = String::from_str(",\"language\":\"");
    t10.append(t11.as_str());
    let mut t9 = m.timezone.clone();
    t9.append("\"");
    t9.append(t10.as_str());
    let mut t8 = String::from_str("],\"timezone\":\"");
    t8.append(t9.as_str());
    let h = u64_to_string(m.viewport.1 as u64);
    let mut t7 = h;
    t7.append(t8.as_str());
    let mut t6 = String::from_str(",");
    t6.append(t7.as_str());
    let w = u64_to_string(m.viewport.0 as u64);
    let mut t5 = w;
    t5.append(t6.as_str());
    let mut t4 = String::from_str(",\"viewport\":[");
    t4.append(t5.as_str());
    let mut t3 = m.browser.clone();
    t3.append("\"");
    t3.append(t4.as_str());
    let mut t2 = String::from_str(",\"browser\":\"");
    t2.append(t3.as_str());
    let mut t1 = m.os.clone();
    t1.append("\"");
    t1.append(t2.as_str());
    let mut out = String::from_str("{\"os\":\"");
    out.append(t1.as_str());
    proof {
        assert(seq!['"'] =~= "\""@) by {
            reveal_strlit("\"");
        }
        assert(t15@ =~= md_tail15(m));
        assert(t14@ =~= md_tail14(m));
        assert(t13@ =~= md_tail13(m));
        assert(t12@ =~= md_tail12(m));
        assert(t11@ =~= md_tail11(m));
        assert(t10@ =~= md_tail10(m));
        assert(t9@ =~= md_tail9(m));
        assert(t8@ =~= md_tail8(m));
        assert(t7@ =~= md_tail7(m));
        assert(t6@ =~= md_tail6(m));
        assert(t5@ =~= md_tail5(m));
        assert(t4@ =~= md_tail4(m));
        assert(t3@ =~= md_tail3(m));
        assert(t2@ =~= md_tail2(m));
        assert(t1@ =~= md_tail1(m));
        assert(out@ =~= enc_metadata(m));
    }
    out
}

/// At the viewport-width position, the number and its boundary.
proof fn lemma_md_width_split(s: Seq<char>, i: int, g: &ProfileMetadata, rest: Seq<char>)
    requires
        0 <= i <= s.len(),
        splits_at(s, i, md_tail5(g), rest),
    ensures
        splits_at(s, i, spec_dec_u64((g.viewport.0 as u64) as nat), md_tail6(g) + rest),
        (md_tail6(g) + rest).len() == 0 || !is_dec_digit((md_tail6(g) + rest)[0]),
        splits_at(s, i + spec_dec_u64((g.viewport.0 as u64) as nat).len(), md_tail6(g), rest),
{
    lemma_peel(s, i, spec_dec_u64(g.viewport.0 as nat), md_tail6(g), rest);
    reveal_strlit(",");
    assert((md_tail6(g) + rest)[0] == md_tail6(g)[0]);
    assert(md_tail6(g)[0] == ","@[0]);
}

/// At the viewport-height position, the number and its boundary.
proof fn lemma_md_height_split(s: Seq<char>, i: int, g: &ProfileMetadata, rest: Seq<char>)
    requires
        0 <= i <= s.len(),
        splits_at(s, i, md_tail7(g), rest),
    ensures
        splits_at(s, i, spec_dec_u64((g.viewport.1 as u64) as nat), md_tail8(g) + rest),
        (md_tail8(g) + rest).len() == 0 || !is_dec_digit((md_tail8(g) + rest)[0]),
        splits_at(s, i + spec_dec_u64((g.viewport.1 as u64) as nat).len(), md_tail8(g), rest),
{
    lemma_peel(s, i, spec_dec_u64(g.viewport.1 as nat), md_tail8(g), rest);
    reveal_strlit("],\"timezone\":\"");
    assert((md_tail8(g) + rest)[0] == md_tail8(g)[0]);
    assert(md_tail8(g)[0] == "],\"timezone\":\""@[0]);
}

/// At the creation-time position, the number and its boundary.
proof fn lemma_md_created_split(s: Seq<char>, i: int, g: &ProfileMetadata, rest: Seq<char>)
    requires
        0 <= i <= s.len(),
        splits_at(s, i, md_tail13(g), rest),
    ensures
        splits_at(s, i, spec_dec_u64(g.created_at as nat), md_tail14(g) + rest),
        (md_tail14(g) + rest).len() == 0 || !is_dec_digit((md_tail14(g) + rest)[0]),
        splits_at(s, i + spec_dec_u64(g.created_at as nat).len(), md_tail14(g), rest),
{
    lemma_peel(s, i, spec_dec_u64(g.created_at as nat), md_tail14(g), rest);
    reveal_strlit(",\"last_used\":");
    assert((md_tail14(g) + rest)[0] == md_tail14(g)[0]);
    assert(md_tail14(g)[0] == ",\"last_used\":"@[0]);
}

/// At the last-use position, the number and its boundary.
proof fn lemma_md_used_split(s: Seq<char>, i: int, g: &ProfileMetadata, rest: Seq<char>)
    requires
        0 <= i <= s.len(),
        splits_at(s, i, md_tail15(g), rest),
    ensures
        splits_at(s, i, spec_dec_u64(g.last_used as nat), "}"@ + rest),
        ("}"@ + rest).len() == 0 || !is_dec_digit(("}"@ + rest)[0]),
        splits_at(s, i + spec_dec_u64(g.last_used as nat).len(), "}"@, rest),
{
    lemma_peel(s, i, spec_dec_u64(g.last_used as nat), "}"@, rest);
    reveal_strlit("}");
    assert(("}"@ + rest)[0] == "}"@[0]);
}

/// Read a metadata record.
#[verifier::rlimit(60)]
pub fn parse_metadata(s: &str, i: usize) -> (r: Option<(ProfileMetadata, usize)>)
    requires
        i <= s@.len(),
    ensures
        r matches Some((q, j)) ==> i < j <= s@.len(),
        forall|g: ProfileMetadata, rest: Seq<char>|
            #[trigger] splits_at(s@, i as int, enc_metadata(&g), rest) && wf_metadata(&g) ==> (
            r matches Some((q, j)) && metadata_like(&q, &g) && j == i + enc_metadata(&g).len()),
{
    let i1 = match expect(s, i, "{\"os\":\"") {
        Some(x) => x,
        None => {
            proof {
                assert forall|g: ProfileMetadata, rest: Seq<char>|
                    !(#[trigger] splits_at(s@, i as int, enc_metadata(&g), rest) && wf_metadata(
                        &g,
                    )) by {
                    if splits_at(s@, i as int, enc_metadata(&g), rest) && wf_metadata(&g) {
                        lemma_peel(s@, i as int, "{\"os\":\""@, md_tail1(&g), rest);
                        lemma_starts_with(s@, i as int, "{\"os\":\""@, md_tail1(&g) + rest);
                    }
                }
            }
            return None;
        },
    };
    proof {
        assert forall|g: ProfileMetadata, rest: Seq<char>|
            #[trigger] splits_at(s@, i as int, enc_metadata(&g), rest) && wf_metadata(&g) implies (
        splits_at(s@, i1 as int, md_tail1(&g), rest) && i + enc_metadata(&g).len() + rest.len()
            == s@.len()) by {
            lemma_peel(s@, i as int, "{\"os\":\""@, md_tail1(&g), rest);
        }
    }
    let (os_s, i2) = match parse_string_body(s, i1) {
        Some(x) => x,
        None => {
            proof {
                assert forall|g: ProfileMetadata, rest: Seq<char>|
                    !(#[trigger] splits_at(s@, i as int, enc_metadata(&g), rest) && wf_metadata(
                        &g,
                    )) by {
                    if splits_at(s@, i as int, enc_metadata(&g), rest) && wf_metadata(&g) {
                        lemma_peel(s@, i1 as int, g.os@ + seq!['"'], md_tail2(&g), rest);
                    }
                }
            }
            return None;
        },
    };
    proof {
        assert forall|g: ProfileMetadata, rest: Seq<char>|
            #[trigger] splits_at(s@, i as int, enc_metadata(&g), rest) && wf_metadata(&g) implies (
        os_s@ == g.os@ && splits_at(s@, i2 as int, md_tail2(&g), rest)) by {
            lemma_peel(s@, i1 as int, g.os@ + seq!['"'], md_tail2(&g), rest);
        }
    }
    let i3 = match expect(s, i2, ",\"browser\":\"") {
        Some(x) => x,
        None => {
            proof {
                assert forall|g: ProfileMetadata, rest: Seq<char>|
                    !(#[trigger] splits_at(s@, i as int, enc_metadata(&g), rest) && wf_metadata(
                        &g,
                    )) by {
                    if splits_at(s@, i as int, enc_metadata(&g), rest) && wf_metadata(&g) {
                        lemma_peel(s@, i2 as int, ",\"browser\":\""@, md_tail3(&g), rest);
                        lemma_starts_with(s@, i2 as int, ",\"browser\":\""@, md_tail3(&g) + rest);
                    }
                }
            }
            return None;
        },
    };
    proof {
        assert forall|g: ProfileMetadata, rest: Seq<char>|
            #[trigger] splits_at(s@, i as int, enc_metadata(&g), rest) && wf_metadata(&g) implies (
        splits_at(s@, i3 as int, md_tail3(&g), rest)) by {
            lemma_peel(s@, i2 as int, ",\"browser\":\""@, md_tail3(&g), rest);
        }
    }
    let (browser_s, i4) = match parse_string_body(s, i3) {
        Some(x) => x,
        None => {
            proof {
                assert forall|g: ProfileMetadata, rest: Seq<char>|
                    !(#[trigger] splits_at(s@, i as int, enc_metadata(&g), rest) && wf_metadata(
                        &g,
                    )) by {
                    if splits_at(s@, i as int, enc_metadata(&g), rest) && wf_metadata(&g) {
                        lemma_peel(s@, i3 as int, g.browser@ + seq!['"'], md_tail4(&g), rest);
                    }
                }
            }
            return None;
        },
    };
    proof {
        assert forall|g: ProfileMetadata, rest: Seq<char>|
            #[trigger] splits_at(s@, i as int, enc_metadata(&g), rest) && wf_metadata(&g) implies (
        browser_s@ == g.browser@ && splits_at(s@, i4 as int, md_tail4(&g), rest)) by {
            lemma_peel(s@, i3 as int, g.browser@ + seq!['"'], md_tail4(&g), rest);
        }
    }
    let i5 = match expect(s, i4, ",\"viewport\":[") {
        Some(x) => x,
        None => {
            proof {
                assert forall|g: ProfileMetadata, rest: Seq<char>|
                    !(#[trigger] splits_at(s@, i as int, enc_metadata(&g), rest) && wf_metadata(
                        &g,
                    )) by {
                    if splits_at(s@, i as int, enc_metadata(&g), rest) && wf_metadata(&g) {
                        lemma_peel(s@, i4 as int, ",\"viewport\":["@, md_tail5(&g), rest);
                        lemma_starts_with(s@, i4 as int, ",\"viewport\":["@, md_tail5(&g) + rest);
                    }
                }
            }
            return None;
        },
    };
    proof {
        assert forall|g: ProfileMetadata, rest: Seq<char>|
            #[trigger] splits_at(s@, i as int, enc_metadata(&g), rest) && wf_metadata(&g) implies (
        splits_at(s@, i5 as int, md_tail5(&g), rest)) by {
            lemma_peel(s@, i4 as int, ",\"viewport\":["@, md_tail5(&g), rest);
        }
    }
    let (w64, i6) = match parse_u64(s, i5) {
        Some(x) => x,
        None => {
            proof {
                assert forall|g: ProfileMetadata, rest: Seq<char>|
                    !(#[trigger] splits_at(s@, i as int, enc_metadata(&g), rest) && wf_metadata(
                        &g,
                    )) by {
                    if splits_at(s@, i as int, enc_metadata(&g), rest) && wf_metadata(&g) {
                        lemma_md_width_split(s@, i5 as int, &g, rest);
                    }
                }
            }
            return None;
        },
    };
    proof {
        assert forall|g: ProfileMetadata, rest: Seq<char>|
            #[trigger] splits_at(s@, i as int, enc_metadata(&g), rest) && wf_metadata(&g) implies (
        w64 == g.viewport.0 as u64 && splits_at(s@, i6 as int, md_tail6(&g), rest)) by {
            lemma_md_width_split(s@, i5 as int, &g, rest);
        }
    }
    if w64 > u32::MAX as u64 {
        proof {
            assert forall|g: ProfileMetadata, rest: Seq<char>|
                !(#[trigger] splits_at(s@, i as int, enc_metadata(&g), rest) && wf_metadata(
                    &g,
                )) by {}
        }
        return None;
    }
    let i7 = match expect(s, i6, ",") {
        Some(x) => x,
        None => {
            proof {
                assert forall|g: ProfileMetadata, rest: Seq<char>|
                    !(#[trigger] splits_at(s@, i as int, enc_metadata(&g), rest) && wf_metadata(
                        &g,
                    )) by {
                    if splits_at(s@, i as int, enc_metadata(&g), rest) && wf_metadata(&g) {
                        lemma_peel(s@, i6 as int, ","@, md_tail7(&g), rest);
                        lemma_starts_with(s@, i6 as int, ","@, md_tail7(&g) + rest);
                    }
                }
            }
            return None;
        },
    };
    proof {
        assert forall|g: ProfileMetadata, rest: Seq<char>|
            #[trigger] splits_at(s@, i as int, enc_metadata(&g), rest) && wf_metadata(&g) implies (
        splits_at(s@, i7 as int, md_tail7(&g), rest)) by {
            lemma_peel(s@, i6 as int, ","@, md_tail7(&g), rest);
        }
    }
    let (h64, i8) = match parse_u64(s, i7) {
        Some(x) => x,
        None => {
            proof {
                assert forall|g: ProfileMetadata, rest: Seq<char>|
                    !(#[trigger] splits_at(s@, i as int, enc_metadata(&g), rest) && wf_metadata(
                        &g,
                    )) by {
                    if splits_at(s@, i as int, enc_metadata(&g), rest) && wf_metadata(&g) {
                        lemma_md_height_split(s@, i7 as int, &g, rest);
                    }
                }
            }
            return None;
        },
    };
    proof {
        assert forall|g: ProfileMetadata, rest: Seq<char>|
            #[trigger] splits_at(s@, i as int, enc_metadata(&g), rest) && wf_metadata(&g) implies (
        h64 == g.viewport.1 as u64 && splits_at(s@, i8 as int, md_tail8(&g), rest)) by {
            lemma_md_height_split(s@, i7 as int, &g, rest);
        }
    }
    if h64 > u32::MAX as u64 {
        proof {
            assert forall|g: ProfileMetadata, rest: Seq<char>|
                !(#[trigger] splits_at(s@, i as int, enc_metadata(&g), rest) && wf_metadata(
                    &g,
                )) by {}
        }
        return None;
    }
    let i9 = match expect(s, i8, "],\"timezone\":\"") {
        Some(x) => x,
        None => {
            proof {
                assert forall|g: ProfileMetadata, rest: Seq<char>|
                    !(#[trigger] splits_at(s@, i as int, enc_metadata(&g), rest) && wf_metadata(
                        &g,
                    )) by {
                    if splits_at(s@, i as int, enc_metadata(&g), rest) && wf_metadata(&g) {
                        lemma_peel(s@, i8 as int, "],\"timezone\":\""@, md_tail9(&g), rest);
                        lemma_starts_with(
                            s@,
                            i8 as int,
                            "],\"timezone\":\""@,
                            md_tail9(&g) + rest,
                        );
                    }
                }
            }
            return None;
        },
    };
    proof {
        assert forall|g: ProfileMetadata, rest: Seq<char>|
            #[trigger] splits_at(s@, i as int, enc_metadata(&g), rest) && wf_metadata(&g) implies (
        splits_at(s@, i9 as int, md_tail9(&g), rest)) by {
            lemma_peel(s@, i8 as int, "],\"timezone\":\""@, md_tail9(&g), rest);
        }
    }
    let (tz_s, i10) = match parse_string_body(s, i9) {
        Some(x) => x,
        None => {
            proof {
                assert forall|g: ProfileMetadata, rest: Seq<char>|
                    !(#[trigger] splits_at(s@, i as int, enc_metadata(&g), rest) && wf_metadata(
                        &g,
                    )) by {
                    if splits_at(s@, i as int, enc_metadata(&g), rest) && wf_metadata(&g) {
                        lemma_peel(s@, i9 as int, g.timezone@ + seq!['"'], md_tail10(&g), rest);
                    }
                }
            }
            return None;
        },
    };
    proof {
        assert forall|g: ProfileMetadata, rest: Seq<char>|
            #[trigger] splits_at(s@, i as int, enc_metadata(&g), rest) && wf_metadata(&g) implies (
        tz_s@ == g.timezone@ && splits_at(s@, i10 as int, md_tail10(&g), rest)) by {
            lemma_peel(s@, i9 as int, g.timezone@ + seq!['"'], md_tail10(&g), rest);
        }
    }
    let i11 = match expect(s, i10, ",\"language\":\"") {
        Some(x) => x,
        None => {
            proof {
                assert forall|g: ProfileMetadata, rest: Seq<char>|
                    !(#[trigger] splits_at(s@, i as int, enc_metadata(&g), rest) && wf_metadata(
                        &g,
                    )) by {
                    if splits_at(s@, i as int, enc_metadata(&g), rest) && wf_metadata(&g) {
                        lemma_peel(s@, i10 as int, ",\"language\":\""@, md_tail11(&g), rest);
                        lemma_starts_with(
                            s@,
                            i10 as int,
                            ",\"language\":\""@,
                            md_tail11(&g) + rest,
                        );
                    }
                }
            }
            return None;
        },
    };
    proof {
        assert forall|g: ProfileMetadata, rest: Seq<char>|
            #[trigger] splits_at(s@, i as int, enc_metadata(&g), rest) && wf_metadata(&g) implies (
        splits_at(s@, i11 as int, md_tail11(&g), rest)) by {
            lemma_peel(s@, i10 as int, ",\"language\":\""@, md_tail11(&g), rest);
        }
    }
    let (lang_s, i12) = match parse_string_body(s, i11) {
        Some(x) => x,
        None => {
            proof {
                assert forall|g: ProfileMetadata, rest: Seq<char>|
                    !(#[trigger] splits_at(s@, i as int, enc_metadata(&g), rest) && wf_metadata(
                        &g,
                    )) by {
                    if splits_at(s@, i as int, enc_metadata(&g), rest) && wf_metadata(&g) {
                        lemma_peel(s@, i11 as int, g.language@ + seq!['"'], md_tail12(&g), rest);
                    }
                }
            }
            return None;
        },
    };
    proof {
        assert forall|g: ProfileMetadata, rest: Seq<char>|
            #[trigger] splits_at(s@, i as int, enc_metadata(&g), rest) && wf_metadata(&g) implies (
        lang_s@ == g.language@ && splits_at(s@, i12 as int, md_tail12(&g), rest)) by {
            lemma_peel(s@, i11 as int, g.language@ + seq!['"'], md_tail12(&g), rest);
        }
    }
    let i13 = match expect(s, i12, ",\"created_at\":") {
        Some(x) => x,
        None => {
            proof {
                assert forall|g: ProfileMetadata, rest: Seq<char>|
                    !(#[trigger] splits_at(s@, i as int, enc_metadata(&g), rest) && wf_metadata(
                        &g,
                    )) by {
                    if splits_at(s@, i as int, enc_metadata(&g), rest) && wf_metadata(&g) {
                        lemma_peel(s@, i12 as int, ",\"created_at\":"@, md_tail13(&g), rest);
                        lemma_starts_with(
                            s@,
                            i12 as int,
                            ",\"created_at\":"@,
                            md_tail13(&g) + rest,
                        );
                    }
                }
            }
            return None;
        },
    };
    proof {
        assert forall|g: ProfileMetadata, rest: Seq<char>|
            #[trigger] splits_at(s@, i as int, enc_metadata(&g), rest) && wf_metadata(&g) implies (
        splits_at(s@, i13 as int, md_tail13(&g), rest)) by {
            lemma_peel(s@, i12 as int, ",\"created_at\":"@, md_tail13(&g), rest);
        }
    }
    let (ca64, i14) = match parse_u64(s, i13) {
        Some(x) => x,
        None => {
            proof {
                assert forall|g: ProfileMetadata, rest: Seq<char>|
                    !(#[trigger] splits_at(s@, i as int, enc_metadata(&g), rest) && wf_metadata(
                        &g,
                    )) by {
                    if splits_at(s@, i as int, enc_metadata(&g), rest) && wf_metadata(&g) {
                        lemma_md_created_split(s@, i13 as int, &g, rest);
                    }
                }
            }
            return None;
        },
    };
    proof {
        assert forall|g: ProfileMetadata, rest: Seq<char>|
            #[trigger] splits_at(s@, i as int, enc_metadata(&g), rest) && wf_metadata(&g) implies (
        ca64 == g.created_at && splits_at(s@, i14 as int, md_tail14(&g), rest)) by {
            lemma_md_created_split(s@, i13 as int, &g, rest);
        }
    }
    let i15 = match expect(s, i14, ",\"last_used\":") {
        Some(x) => x,
        None => {
            proof {
                assert forall|g: ProfileMetadata, rest: Seq<char>|
                    !(#[trigger] splits_at(s@, i as int, enc_metadata(&g), rest) && wf_metadata(
                        &g,
                    )) by {
                    if splits_at(s@, i as int, enc_metadata(&g), rest) && wf_metadata(&g) {
                        lemma_peel(s@, i14 as int, ",\"last_used\":"@, md_tail15(&g), rest);
                        lemma_starts_with(
                            s@,
                            i14 as int,
                            ",\"last_used\":"@,
                            md_tail15(&g) + rest,
                        );
                    }
                }
            }
            return None;
        },
    };
    proof {
        assert forall|g: ProfileMetadata, rest: Seq<char>|
            #[trigger] splits_at(s@, i as int, enc_metadata(&g), rest) && wf_metadata(&g) implies (
        splits_at(s@, i15 as int, md_tail15(&g), rest)) by {
            lemma_peel(s@, i14 as int, ",\"last_used\":"@, md_tail15(&g), rest);
        }
    }
    let (lu64, i16) = match parse_u64(s, i15) {
        Some(x) => x,
        None => {
            proof {
                assert forall|g: ProfileMetadata, rest: Seq<char>|
                    !(#[trigger] splits_at(s@, i as int, enc_metadata(&g), rest) && wf_metadata(
                        &g,
                    )) by {
                    if splits_at(s@, i as int, enc_metadata(&g), rest) && wf_metadata(&g) {
                        lemma_md_used_split(s@, i15 as int, &g, rest);
                    }
                }
            }
            return None;
        },
    };
    proof {
        assert forall|g: ProfileMetadata, rest: Seq<char>|
            #[trigger] splits_at(s@, i as int, enc_metadata(&g), rest) && wf_metadata(&g) implies (
        lu64 == g.last_used && splits_at(s@, i16 as int, "}"@, rest)) by {
            lemma_md_used_split(s@, i15 as int, &g, rest);
        }
    }
    let i17 = match expect(s, i16, "}") {
        Some(x) => x,
        None => {
            proof {
                assert forall|g: ProfileMetadata, rest: Seq<char>|
                    !(#[trigger] splits_at(s@, i as int, enc_metadata(&g), rest) && wf_metadata(
                        &g,
                    )) by {
                    if splits_at(s@, i as int, enc_metadata(&g), rest) && wf_metadata(&g) {
                        lemma_starts_with(s@, i16 as int, "}"@, rest);
                    }
                }
            }
            return None;
        },
    };
    let q = ProfileMetadata {
        os: os_s,
        browser: browser_s,
        viewport: (w64 as u32, h64 as u32),
        timezone: tz_s,
        language: lang_s,
        created_at: ca64,
        last_used: lu64,
    };
    proof {
        assert forall|g: ProfileMetadata, rest: Seq<char>|
            #[trigger] splits_at(s@, i as int, enc_metadata(&g), rest) && wf_metadata(&g) implies (
        metadata_like(&q, &g) && i17 == i + enc_metadata(&g).len()) by {
            lemma_starts_with(s@, i16 as int, "}"@, rest);
        }
    }
    Some((q, i17))
}

/// A magnitude above the signed range contradicts a positive split.
proof fn lemma_no_large_positive_split(s: Seq<char>, i: int, mag: nat, j: int)
    requires
        0 <= i,
        !(i < s.len() && s[i] == '-'),
        digit_run(s, i, j),
        mag as nat == dec_val(s.subrange(i, j)),
        mag > i64::MAX as nat,
    ensures
        forall|gv: int, rest: Seq<char>|
            !(#[trigger] splits_at(s, i, spec_dec_i64(gv), rest) && i64::MIN <= gv <= i64::MAX && (
            rest.len() == 0 || !is_dec_digit(rest[0]))),
{
    assert forall|gv: int, rest: Seq<char>|
        !(#[trigger] splits_at(s, i, spec_dec_i64(gv), rest) && i64::MIN <= gv <= i64::MAX && (
        rest.len() == 0 || !is_dec_digit(rest[0]))) by {
        if splits_at(s, i, spec_dec_i64(gv), rest) && i64::MIN <= gv <= i64::MAX && (rest.len()
            == 0 || !is_dec_digit(rest[0])) {
            lemma_i64_split_positive(s, i, gv, rest, s.len() as int);
            lemma_digit_run_is_dec(s, i, j, gv as nat, rest);
        }
    }
}

// ---------------------------------------------------------------------------
// Fingerprints
// ---------------------------------------------------------------------------

/// A fingerprint whose strings are plain.
pub open spec fn wf_fingerprint(f: &BrowserFingerprint) -> bool {
    plain_seq(f.user_agent@) && plain_seq(f.platform@)
}

/// Canonical text of the record.
pub open spec fn enc_fingerprint(m: &BrowserFingerprint) -> Seq<char> {
    "{\"user_agent\":\""@ + fp_tail1(m)
}

/// Text of the record from part 1 on.
pub open spec fn fp_tail1(m: &BrowserFingerprint) -> Seq<char> {
    (m.user_agent@ + seq!['"']) + fp_tail2(m)
}

/// Text of the record from part 2 on.
pub open spec fn fp_tail2(m: &BrowserFingerprint) -> Seq<char> {
    ",\"screen_resolution\":["@ + fp_tail3(m)
}

/// Text of the record from part 3 on.
pub open spec fn fp_tail3(m: &BrowserFingerprint) -> Seq<char> {
    spec_dec_u64(m.screen_resolution.0 as nat) + fp_tail4(m)
}

/// Text of the record from part 4 on.
pub open spec fn fp_tail4(m: &BrowserFingerprint) -> Seq<char> {
    ","@ + fp_tail5(m)
}

/// Text of the record from part 5 on.
pub open spec fn fp_tail5(m: &BrowserFingerprint) -> Seq<char> {
    spec_dec_u64(m.screen_resolution.1 as nat) + fp_tail6(m)
}

/// Text of the record from part 6 on.
pub open spec fn fp_tail6(m: &BrowserFingerprint) -> Seq<char> {
    "],\"color_depth\":"@ + fp_tail7(m)
}

/// Text of the record from part 7 on.
pub open spec fn fp_tail7(m: &BrowserFingerprint) -> Seq<char> {
    spec_dec_u64(m.color_depth as nat) + fp_tail8(m)
}

/// Text of the record from part 8 on.
pub open spec fn fp_tail8(m: &BrowserFingerprint) -> Seq<char> {
    ",\"timezone_offset\":"@ + fp_tail9(m)
}

/// Text of the record from part 9 on.
pub open spec fn fp_tail9(m: &BrowserFingerprint) -> Seq<char> {
    spec_dec_i64(m.timezone_offset as int) + fp_tail10(m)
}

/// Text of the record from part 10 on.
pub open spec fn fp_tail10(m: &BrowserFingerprint) -> Seq<char> {
    ",\"platform\":\""@ + fp_tail11(m)
}

/// Text of the record from part 11 on.
pub open spec fn fp_tail11(m: &BrowserFingerprint) -> Seq<char> {
    (m.platform@ + seq!['"']) + fp_tail12(m)
}

/// Text of the record from part 12 on.
pub open spec fn fp_tail12(m: &BrowserFingerprint) -> Seq<char> {
    ",\"hardware_concurrency\":"@ + fp_tail13(m)
}

/// Text of the record from part 13 on.
pub open spec fn fp_tail13(m: &BrowserFingerprint) -> Seq<char> {
    spec_dec_u64(m.hardware_concurrency as nat) + fp_tail14(m)
}

/// Text of the record from part 14 on.
pub open spec fn fp_tail14(m: &BrowserFingerprint) -> Seq<char> {
    ",\"device_memory\":"@ + fp_tail15(m)
}

/// Text of the record from part 15 on.
pub open spec fn fp_tail15(m: &BrowserFingerprint) -> Seq<char> {
    spec_dec_u64(m.device_memory as nat) + "}"@
}

/// Render the record.
pub fn encode_fingerprint(m: &BrowserFingerprint) -> (out: String)
    ensures
        out@ == enc_fingerprint(m),
{
    let mut t15 = u64_to_string(m.device_memory as u64);
    t15.append("}");
    let mut t14 = String::from_str(",\"device_memory\":");
    t14.append(t15.as_str());
    let mut t13 = u64_to_string(m.hardware_concurrency as u64);
    t13.append(t14.as_str());
    let mut t12 = String::from_str(",\"hardware_concurrency\":");
    t12.append(t13.as_str());
    let mut t11 = m.platform.clone();
    t11.append("\"");
    t11.append(t12.as_str());
    let mut t10 = String::from_str(",\"platform\":\"");
    t10.append(t11.as_str());
    let mut t9 = i64_to_string(m.timezone_offset as i64);
    t9.append(t10.as_str());
    let mut t8 = String::from_str(",\"timezone_offset\":");
    t8.append(t9.as_str());
    let mut t7 = u64_to_string(m.color_depth as u64);
    t7.append(t8.as_str());
    let mut t6 = String::from_str("],\"color_depth\":");
    t6.append(t7.as_str());
    let mut t5 = u64_to_string(m.screen_resolution.1 as u64);
    t5.append(t6.as_str());
    let mut t4 = String::from_str(",");
    t4.append(t5.as_str());
    let mut t3 = u64_to_string(m.screen_resolution.0 as u64);
    t3.append(t4.as_str());
    let mut t2 = String::from_str(",\"screen_resolution\":[");
    t2.append(t3.as_str());
    let mut t1 = m.user_agent.clone();
    t1.append("\"");
    t1.append(t2.as_str());
    let mut out = String::from_str("{\"user_agent\":\"");
    out.append(t1.as_str());
    proof {
        assert(seq!['"'] =~= "\""@) by {
            reveal_strlit("\"");
        }
        assert(t15@ =~= fp_tail15(m));
        assert(t14@ =~= fp_tail14(m));
        assert(t13@ =~= fp_tail13(m));
        assert(t12@ =~= fp_tail12(m));
        assert(t11@ =~= fp_tail11(m));
        assert(t10@ =~= fp_tail10(m));
        assert(t9@ =~= fp_tail9(m));
        assert(t8@ =~= fp_tail8(m));
        assert(t7@ =~= fp_tail7(m));
        assert(t6@ =~= fp_tail6(m));
        assert(t5@ =~= fp_tail5(m));
        assert(t4@ =~= fp_tail4(m));
        assert(t3@ =~= fp_tail3(m));
        assert(t2@ =~= fp_tail2(m));
        assert(t1@ =~= fp_tail1(m));
        assert(out@ =~= enc_fingerprint(m));
    }
    out
}

/// At one number position, the number and its non-digit boundary.
proof fn lemma_fp_num3_split(s: Seq<char>, p: int, g: &BrowserFingerprint, rest: Seq<char>)
    requires
        0 <= p <= s.len(),
        splits_at(s, p, fp_tail3(g), rest),
    ensures
        splits_at(s, p, spec_dec_u64((g.screen_resolution.0 as u64) as nat), fp_tail4(g) + rest),
        (fp_tail4(g) + rest).len() == 0 || !is_dec_digit((fp_tail4(g) + rest)[0]),
        splits_at(s, p + spec_dec_u64((g.screen_resolution.0 as u64) as nat).len(), fp_tail4(g), rest),
{
    lemma_peel(s, p, spec_dec_u64(g.screen_resolution.0 as nat), fp_tail4(g), rest);
    reveal_strlit(",");
    assert((fp_tail4(g) + rest)[0] == fp_tail4(g)[0]);
    assert(fp_tail4(g)[0] == ","@[0]);
}

/// At one number position, the number and its non-digit boundary.
proof fn lemma_fp_num5_split(s: Seq<char>, p: int, g: &BrowserFingerprint, rest: Seq<char>)
    requires
        0 <= p <= s.len(),
        splits_at(s, p, fp_tail5(g), rest),
    ensures
        splits_at(s, p, spec_dec_u64((g.screen_resolution.1 as u64) as nat), fp_tail6(g) + rest),
        (fp_tail6(g) + rest).len() == 0 || !is_dec_digit((fp_tail6(g) + rest)[0]),
        splits_at(s, p + spec_dec_u64((g.screen_resolution.1 as u64) as nat).len(), fp_tail6(g), rest),
{
    lemma_peel(s, p, spec_dec_u64(g.screen_resolution.1 as nat), fp_tail6(g), rest);
    reveal_strlit("],\"color_depth\":");
    assert((fp_tail6(g) + rest)[0] == fp_tail6(g)[0]);
    assert(fp_tail6(g)[0] == "],\"color_depth\":"@[0]);
}

/// At one number position, the number and its non-digit boundary.
proof fn lemma_fp_num7_split(s: Seq<char>, p: int, g: &BrowserFingerprint, rest: Seq<char>)
    requires
        0 <= p <= s.len(),
        splits_at(s, p, fp_tail7(g), rest),
    ensures
        splits_at(s, p, spec_dec_u64((g.color_depth as u64) as nat), fp_tail8(g) + rest),
        (fp_tail8(g) + rest).len() == 0 || !is_dec_digit((fp_tail8(g) + rest)[0]),
        splits_at(s, p + spec_dec_u64((g.color_depth as u64) as nat).len(), fp_tail8(g), rest),
{
    lemma_peel(s, p, spec_dec_u64(g.color_depth as nat), fp_tail8(g), rest);
    reveal_strlit(",\"timezone_offset\":");
    assert((fp_tail8(g) + rest)[0] == fp_tail8(g)[0]);
    assert(fp_tail8(g)[0] == ",\"timezone_offset\":"@[0]);
}

/// At one number position, the number and its non-digit boundary.
proof fn lemma_fp_num9_split(s: Seq<char>, p: int, g: &BrowserFingerprint, rest: Seq<char>)
    requires
        0 <= p <= s.len(),
        splits_at(s, p, fp_tail9(g), rest),
    ensures
        splits_at(s, p, spec_dec_i64(g.timezone_offset as int), fp_tail10(g) + rest),
        (fp_tail10(g) + rest).len() == 0 || !is_dec_digit((fp_tail10(g) + rest)[0]),
        splits_at(s, p + spec_dec_i64(g.timezone_offset as int).len(), fp_tail10(g), rest),
{
    lemma_peel(s, p, spec_dec_i64(g.timezone_offset as int), fp_tail10(g), rest);
    reveal_strlit(",\"platform\":\"");
    assert((fp_tail10(g) + rest)[0] == fp_tail10(g)[0]);
    assert(fp_tail10(g)[0] == ",\"platform\":\""@[0]);
}

/// At one number position, the number and its non-digit boundary.
proof fn lemma_fp_num13_split(s: Seq<char>, p: int, g: &BrowserFingerprint, rest: Seq<char>)
    requires
        0 <= p <= s.len(),
        splits_at(s, p, fp_tail13(g), rest),
    ensures
        splits_at(s, p, spec_dec_u64((g.hardware_concurrency as u64) as nat), fp_tail14(g) + rest),
        (fp_tail14(g) + rest).len() == 0 || !is_dec_digit((fp_tail14(g) + rest)[0]),
        splits_at(s, p + spec_dec_u64((g.hardware_concurrency as u64) as nat).len(), fp_tail14(g), rest),
{
    lemma_peel(s, p, spec_dec_u64(g.hardware_concurrency as nat), fp_tail14(g), rest);
    reveal_strlit(",\"device_memory\":");
    assert((fp_tail14(g) + rest)[0] == fp_tail14(g)[0]);
    assert(fp_tail14(g)[0] == ",\"device_memory\":"@[0]);
}

/// At one number position, the number and its non-digit boundary.
proof fn lemma_fp_num15_split(s: Seq<char>, p: int, g: &BrowserFingerprint, rest: Seq<char>)
    requires
        0 <= p <= s.len(),
        splits_at(s, p, fp_tail15(g), rest),
    ensures
        splits_at(s, p, spec_dec_u64((g.device_memory as u64) as nat), "}"@ + rest),
        ("}"@ + rest).len() == 0 || !is_dec_digit(("}"@ + rest)[0]),
        splits_at(s, p + spec_dec_u64((g.device_memory as u64) as nat).len(), "}"@, rest),
{
    lemma_peel(s, p, spec_dec_u64(g.device_memory as nat), "}"@, rest);
    reveal_strlit("}");
    assert(("}"@ + rest)[0] == "}"@[0]);
    assert("}"@[0] == "}"@[0]);
}

/// Read the record back.
#[verifier::rlimit(100)]
pub fn parse_fingerprint(s: &str, i: usize) -> (r: Option<(BrowserFingerprint, usize)>)
    requires
        i <= s@.len(),
    ensures
        r matches Some((q, j)) ==> i < j <= s@.len(),
        forall|g: BrowserFingerprint, rest: Seq<char>|
            #[trigger] splits_at(s@, i as int, enc_fingerprint(&g), rest) && wf_fingerprint(&g) ==> (
            r matches Some((q, j)) && fingerprint_like(&q, &g) && j == i + enc_fingerprint(&g).len()),
{
    let i1 = match expect(s, i, "{\"user_agent\":\"") {
        Some(x) => x,
        None => {
            proof {
                assert forall|g: BrowserFingerprint, rest: Seq<char>|
                    !(#[trigger] splits_at(s@, i as int, enc_fingerprint(&g), rest) && wf_fingerprint(&g)) by {
                    if splits_at(s@, i as int, enc_fingerprint(&g), rest) && wf_fingerprint(&g) {
                        lemma_peel(s@, i as int, "{\"user_agent\":\""@, fp_tail1(&g), rest);
                        lemma_starts_with(s@, i as int, "{\"user_agent\":\""@, fp_tail1(&g) + rest);
                    }
                }
            }
            return None;
        },
    };
    proof {
        assert forall|g: BrowserFingerprint, rest: Seq<char>|
            #[trigger] splits_at(s@, i as int, enc_fingerprint(&g), rest) && wf_fingerprint(&g) implies (splits_at(s@, i1 as int, fp_tail1(&g), rest) && i + enc_fingerprint(&g).len() + rest.len() == s@.len()) by {
                        lemma_peel(s@, i as int, "{\"user_agent\":\""@, fp_tail1(&g), rest);
        }
    }
    let (v0, i2) = match parse_string_body(s, i1) {
        Some(x) => x,
        None => {
            proof {
                assert forall|g: BrowserFingerprint, rest: Seq<char>|
                    !(#[trigger] splits_at(s@, i as int, enc_fingerprint(&g), rest) && wf_fingerprint(&g)) by {
                    if splits_at(s@, i as int, enc_fingerprint(&g), rest) && wf_fingerprint(&g) {
                        lemma_peel(s@, i1 as int, g.user_agent@ + seq!['"'], fp_tail2(&g), rest);
                    }
                }
            }
            return None;
        },
    };
    proof {
        assert forall|g: BrowserFingerprint, rest: Seq<char>|
            #[trigger] splits_at(s@, i as int, enc_fingerprint(&g), rest) && wf_fingerprint(&g) implies (v0@ == g.user_agent@ && splits_at(s@, i2 as int, fp_tail2(&g), rest)) by {
                        lemma_peel(s@, i1 as int, g.user_agent@ + seq!['"'], fp_tail2(&g), rest);
        }
    }
    let i3 = match expect(s, i2, ",\"screen_resolution\":[") {
        Some(x) => x,
        None => {
            proof {
                assert forall|g: BrowserFingerprint, rest: Seq<char>|
                    !(#[trigger] splits_at(s@, i as int, enc_fingerprint(&g), rest) && wf_fingerprint(&g)) by {
                    if splits_at(s@, i as int, enc_fingerprint(&g), rest) && wf_fingerprint(&g) {
                        lemma_peel(s@, i2 as int, ",\"screen_resolution\":["@, fp_tail3(&g), rest);
                        lemma_starts_with(s@, i2 as int, ",\"screen_resolution\":["@, fp_tail3(&g) + rest);
                    }
                }
            }
            return None;
        },
    };
    proof {
        assert forall|g: BrowserFingerprint, rest: Seq<char>|
            #[trigger] splits_at(s@, i as int, enc_fingerprint(&g), rest) && wf_fingerprint(&g) implies (splits_at(s@, i3 as int, fp_tail3(&g), rest)) by {
                        lemma_peel(s@, i2 as int, ",\"screen_resolution\":["@, fp_tail3(&g), rest);
        }
    }
    let (v1, i4) = match parse_u64(s, i3) {
        Some(x) => x,
        None => {
            proof {
                assert forall|g: BrowserFingerprint, rest: Seq<char>|
                    !(#[trigger] splits_at(s@, i as int, enc_fingerprint(&g), rest) && wf_fingerprint(&g)) by {
                    if splits_at(s@, i as int, enc_fingerprint(&g), rest) && wf_fingerprint(&g) {
                        lemma_fp_num3_split(s@, i3 as int, &g, rest);
                    }
                }
            }
            return None;
        },
    };
    proof {
        assert forall|g: BrowserFingerprint, rest: Seq<char>|
            #[trigger] splits_at(s@, i as int, enc_fingerprint(&g), rest) && wf_fingerprint(&g) implies (v1 == g.screen_resolution.0 as u64 && splits_at(s@, i4 as int, fp_tail4(&g), rest)) by {
                        lemma_fp_num3_split(s@, i3 as int, &g, rest);
        }
    }
    if v1 > u32::MAX as u64 {
        proof {
                assert forall|g: BrowserFingerprint, rest: Seq<char>|
                    !(#[trigger] splits_at(s@, i as int, enc_fingerprint(&g), rest) && wf_fingerprint(&g)) by {
                    if splits_at(s@, i as int, enc_fingerprint(&g), rest) && wf_fingerprint(&g) {
                    }
                }
        }
        return None;
    }
    let i5 = match expect(s, i4, ",") {
        Some(x) => x,
        None => {
            proof {
                assert forall|g: BrowserFingerprint, rest: Seq<char>|
                    !(#[trigger] splits_at(s@, i as int, enc_fingerprint(&g), rest) && wf_fingerprint(&g)) by {
                    if splits_at(s@, i as int, enc_fingerprint(&g), rest) && wf_fingerprint(&g) {
                        lemma_peel(s@, i4 as int, ","@, fp_tail5(&g), rest);
                        lemma_starts_with(s@, i4 as int, ","@, fp_tail5(&g) + rest);
                    }
                }
            }
            return None;
        },
    };
    proof {
        assert forall|g: BrowserFingerprint, rest: Seq<char>|
            #[trigger] splits_at(s@, i as int, enc_fingerprint(&g), rest) && wf_fingerprint(&g) implies (splits_at(s@, i5 as int, fp_tail5(&g), rest)) by {
                        lemma_peel(s@, i4 as int, ","@, fp_tail5(&g), rest);
        }
    }
    let (v2, i6) = match parse_u64(s, i5) {
        Some(x) => x,
        None => {
            proof {
                assert forall|g: BrowserFingerprint, rest: Seq<char>|
                    !(#[trigger] splits_at(s@, i as int, enc_fingerprint(&g), rest) && wf_fingerprint(&g)) by {
                    if splits_at(s@, i as int, enc_fingerprint(&g), rest) && wf_fingerprint(&g) {
                        lemma_fp_num5_split(s@, i5 as int, &g, rest);
                    }
                }
            }
            return None;
        },
    };
    proof {
        assert forall|g: BrowserFingerprint, rest: Seq<char>|
            #[trigger] splits_at(s@, i as int, enc_fingerprint(&g), rest) && wf_fingerprint(&g) implies (v2 == g.screen_resolution.1 as u64 && splits_at(s@, i6 as int, fp_tail6(&g), rest)) by {
                        lemma_fp_num5_split(s@, i5 as int, &g, rest);
        }
    }
    if v2 > u32::MAX as u64 {
        proof {
                assert forall|g: BrowserFingerprint, rest: Seq<char>|
                    !(#[trigger] splits_at(s@, i as int, enc_fingerprint(&g), rest) && wf_fingerprint(&g)) by {
                    if splits_at(s@, i as int, enc_fingerprint(&g), rest) && wf_fingerprint(&g) {
                    }
                }
        }
        return None;
    }
    let i7 = match expect(s, i6, "],\"color_depth\":") {
        Some(x) => x,
        None => {
            proof {
                assert forall|g: BrowserFingerprint, rest: Seq<char>|
                    !(#[trigger] splits_at(s@, i as int, enc_fingerprint(&g), rest) && wf_fingerprint(&g)) by {
                    if splits_at(s@, i as int, enc_fingerprint(&g), rest) && wf_fingerprint(&g) {
                        lemma_peel(s@, i6 as int, "],\"color_depth\":"@, fp_tail7(&g), rest);
                        lemma_starts_with(s@, i6 as int, "],\"color_depth\":"@, fp_tail7(&g) + rest);
                    }
                }
            }
            return None;
        },
    };
    proof {
        assert forall|g: BrowserFingerprint, rest: Seq<char>|
            #[trigger] splits_at(s@, i as int, enc_fingerprint(&g), rest) && wf_fingerprint(&g) implies (splits_at(s@, i7 as int, fp_tail7(&g), rest)) by {
                        lemma_peel(s@, i6 as int, "],\"color_depth\":"@, fp_tail7(&g), rest);
        }
    }
    let (v3, i8) = match parse_u64(s, i7) {
        Some(x) => x,
        None => {
            proof {
                assert forall|g: BrowserFingerprint, rest: Seq<char>|
                    !(#[trigger] splits_at(s@, i as int, enc_fingerprint(&g), rest) && wf_fingerprint(&g)) by {
                    if splits_at(s@, i as int, enc_fingerprint(&g), rest) && wf_fingerprint(&g) {
                        lemma_fp_num7_split(s@, i7 as int, &g, rest);
                    }
                }
            }
            return None;
        },
    };
    proof {
        assert forall|g: BrowserFingerprint, rest: Seq<char>|
            #[trigger] splits_at(s@, i as int, enc_fingerprint(&g), rest) && wf_fingerprint(&g) implies (v3 == g.color_depth as u64 && splits_at(s@, i8 as int, fp_tail8(&g), rest)) by {
                        lemma_fp_num7_split(s@, i7 as int, &g, rest);
        }
    }
    if v3 > u8::MAX as u64 {
        proof {
                assert forall|g: BrowserFingerprint, rest: Seq<char>|
                    !(#[trigger] splits_at(s@, i as int, enc_fingerprint(&g), rest) && wf_fingerprint(&g)) by {
                    if splits_at(s@, i as int, enc_fingerprint(&g), rest) && wf_fingerprint(&g) {
                    }
                }
        }
        return None;
    }
    let i9 = match expect(s, i8, ",\"timezone_offset\":") {
        Some(x) => x,
        None => {
            proof {
                assert forall|g: BrowserFingerprint, rest: Seq<char>|
                    !(#[trigger] splits_at(s@, i as int, enc_fingerprint(&g), rest) && wf_fingerprint(&g)) by {
                    if splits_at(s@, i as int, enc_fingerprint(&g), rest) && wf_fingerprint(&g) {
                        lemma_peel(s@, i8 as int, ",\"timezone_offset\":"@, fp_tail9(&g), rest);
                        lemma_starts_with(s@, i8 as int, ",\"timezone_offset\":"@, fp_tail9(&g) + rest);
                    }
                }
            }
            return None;
        },
    };
    proof {
        assert forall|g: BrowserFingerprint, rest: Seq<char>|
            #[trigger] splits_at(s@, i as int, enc_fingerprint(&g), rest) && wf_fingerprint(&g) implies (splits_at(s@, i9 as int, fp_tail9(&g), rest)) by {
                        lemma_peel(s@, i8 as int, ",\"timezone_offset\":"@, fp_tail9(&g), rest);
        }
    }
    let (v4, i10) = match parse_i64(s, i9) {
        Some(x) => x,
        None => {
            proof {
                assert forall|g: BrowserFingerprint, rest: Seq<char>|
                    !(#[trigger] splits_at(s@, i as int, enc_fingerprint(&g), rest) && wf_fingerprint(&g)) by {
                    if splits_at(s@, i as int, enc_fingerprint(&g), rest) && wf_fingerprint(&g) {
                        lemma_fp_num9_split(s@, i9 as int, &g, rest);
                    }
                }
            }
            return None;
        },
    };
    proof {
        assert forall|g: BrowserFingerprint, rest: Seq<char>|
            #[trigger] splits_at(s@, i as int, enc_fingerprint(&g), rest) && wf_fingerprint(&g) implies (v4 == g.timezone_offset as i64 && splits_at(s@, i10 as int, fp_tail10(&g), rest)) by {
                        lemma_fp_num9_split(s@, i9 as int, &g, rest);
        }
    }
    if v4 > i32::MAX as i64 || v4 < i32::MIN as i64 {
        proof {
                assert forall|g: BrowserFingerprint, rest: Seq<char>|
                    !(#[trigger] splits_at(s@, i as int, enc_fingerprint(&g), rest) && wf_fingerprint(&g)) by {
                    if splits_at(s@, i as int, enc_fingerprint(&g), rest) && wf_fingerprint(&g) {
                    }
                }
        }
        return None;
    }
    let i11 = match expect(s, i10, ",\"platform\":\"") {
        Some(x) => x,
        None => {
            proof {
                assert forall|g: BrowserFingerprint, rest: Seq<char>|
                    !(#[trigger] splits_at(s@, i as int, enc_fingerprint(&g), rest) && wf_fingerprint(&g)) by {
                    if splits_at(s@, i as int, enc_fingerprint(&g), rest) && wf_fingerprint(&g) {
                        lemma_peel(s@, i10 as int, ",\"platform\":\""@, fp_tail11(&g), rest);
                        lemma_starts_with(s@, i10 as int, ",\"platform\":\""@, fp_tail11(&g) + rest);
                    }
                }
            }
            return None;
        },
    };
    proof {
        assert forall|g: BrowserFingerprint, rest: Seq<char>|
            #[trigger] splits_at(s@, i as int, enc_fingerprint(&g), rest) && wf_fingerprint(&g) implies (splits_at(s@, i11 as int, fp_tail11(&g), rest)) by {
                        lemma_peel(s@, i10 as int, ",\"platform\":\""@, fp_tail11(&g), rest);
        }
    }
    let (v5, i12) = match parse_string_body(s, i11) {
        Some(x) => x,
        None => {
            proof {
                assert forall|g: BrowserFingerprint, rest: Seq<char>|
                    !(#[trigger] splits_at(s@, i as int, enc_fingerprint(&g), rest) && wf_fingerprint(&g)) by {
                    if splits_at(s@, i as int, enc_fingerprint(&g), rest) && wf_fingerprint(&g) {
                        lemma_peel(s@, i11 as int, g.platform@ + seq!['"'], fp_tail12(&g), rest);
                    }
                }
            }
            return None;
        },
    };
    proof {
        assert forall|g: BrowserFingerprint, rest: Seq<char>|
            #[trigger] splits_at(s@, i as int, enc_fingerprint(&g), rest) && wf_fingerprint(&g) implies (v5@ == g.platform@ && splits_at(s@, i12 as int, fp_tail12(&g), rest)) by {
                        lemma_peel(s@, i11 as int, g.platform@ + seq!['"'], fp_tail12(&g), rest);
        }
    }
    let i13 = match expect(s, i12, ",\"hardware_concurrency\":") {
        Some(x) => x,
        None => {
            proof {
                assert forall|g: BrowserFingerprint, rest: Seq<char>|
                    !(#[trigger] splits_at(s@, i as int, enc_fingerprint(&g), rest) && wf_fingerprint(&g)) by {
                    if splits_at(s@, i as int, enc_fingerprint(&g), rest) && wf_fingerprint(&g) {
                        lemma_peel(s@, i12 as int, ",\"hardware_concurrency\":"@, fp_tail13(&g), rest);
                        lemma_starts_with(s@, i12 as int, ",\"hardware_concurrency\":"@, fp_tail13(&g) + rest);
                    }
                }
            }
            return None;
        },
    };
    proof {
        assert forall|g: BrowserFingerprint, rest: Seq<char>|
            #[trigger] splits_at(s@, i as int, enc_fingerprint(&g), rest) && wf_fingerprint(&g) implies (splits_at(s@, i13 as int, fp_tail13(&g), rest)) by {
                        lemma_peel(s@, i12 as int, ",\"hardware_concurrency\":"@, fp_tail13(&g), rest);
        }
    }
    let (v6, i14) = match parse_u64(s, i13) {
        Some(x) => x,
        None => {
            proof {
                assert forall|g: BrowserFingerprint, rest: Seq<char>|
                    !(#[trigger] splits_at(s@, i as int, enc_fingerprint(&g), rest) && wf_fingerprint(&g)) by {
                    if splits_at(s@, i as int, enc_fingerprint(&g), rest) && wf_fingerprint(&g) {
                        lemma_fp_num13_split(s@, i13 as int, &g, rest);
                    }
                }
            }
            return None;
        },
    };
    proof {
        assert forall|g: BrowserFingerprint, rest: Seq<char>|
            #[trigger] splits_at(s@, i as int, enc_fingerprint(&g), rest) && wf_fingerprint(&g) implies (v6 == g.hardware_concurrency as u64 && splits_at(s@, i14 as int, fp_tail14(&g), rest)) by {
                        lemma_fp_num13_split(s@, i13 as int, &g, rest);
        }
    }
    if v6 > u32::MAX as u64 {
        proof {
                assert forall|g: BrowserFingerprint, rest: Seq<char>|
                    !(#[trigger] splits_at(s@, i as int, enc_fingerprint(&g), rest) && wf_fingerprint(&g)) by {
                    if splits_at(s@, i as int, enc_fingerprint(&g), rest) && wf_fingerprint(&g) {
                    }
                }
        }
        return None;
    }
    let i15 = match expect(s, i14, ",\"device_memory\":") {
        Some(x) => x,
        None => {
            proof {
                assert forall|g: BrowserFingerprint, rest: Seq<char>|
                    !(#[trigger] splits_at(s@, i as int, enc_fingerprint(&g), rest) && wf_fingerprint(&g)) by {
                    if splits_at(s@, i as int, enc_fingerprint(&g), rest) && wf_fingerprint(&g) {
                        lemma_peel(s@, i14 as int, ",\"device_memory\":"@, fp_tail15(&g), rest);
                        lemma_starts_with(s@, i14 as int, ",\"device_memory\":"@, fp_tail15(&g) + rest);
                    }
                }
            }
            return None;
        },
    };
    proof {
        assert forall|g: BrowserFingerprint, rest: Seq<char>|
            #[trigger] splits_at(s@, i as int, enc_fingerprint(&g), rest) && wf_fingerprint(&g) implies (splits_at(s@, i15 as int, fp_tail15(&g), rest)) by {
                        lemma_peel(s@, i14 as int, ",\"device_memory\":"@, fp_tail15(&g), rest);
        }
    }
    let (v7, i16) = match parse_u64(s, i15) {
        Some(x) => x,
        None => {
            proof {
                assert forall|g: BrowserFingerprint, rest: Seq<char>|
                    !(#[trigger] splits_at(s@, i as int, enc_fingerprint(&g), rest) && wf_fingerprint(&g)) by {
                    if splits_at(s@, i as int, enc_fingerprint(&g), rest) && wf_fingerprint(&g) {
                        lemma_fp_num15_split(s@, i15 as int, &g, rest);
                    }
                }
            }
            return None;
        },
    };
    proof {
        assert forall|g: BrowserFingerprint, rest: Seq<char>|
            #[trigger] splits_at(s@, i as int, enc_fingerprint(&g), rest) && wf_fingerprint(&g) implies (v7 == g.device_memory as u64 && splits_at(s@, i16 as int, "}"@, rest)) by {
                        lemma_fp_num15_split(s@, i15 as int, &g, rest);
        }
    }
    if v7 > u32::MAX as u64 {
        proof {
                assert forall|g: BrowserFingerprint, rest: Seq<char>|
                    !(#[trigger] splits_at(s@, i as int, enc_fingerprint(&g), rest) && wf_fingerprint(&g)) by {
                    if splits_at(s@, i as int, enc_fingerprint(&g), rest) && wf_fingerprint(&g) {
                    }
                }
        }
        return None;
    }
    let i17 = match expect(s, i16, "}") {
        Some(x) => x,
        None => {
            proof {
                assert forall|g: BrowserFingerprint, rest: Seq<char>|
                    !(#[trigger] splits_at(s@, i as int, enc_fingerprint(&g), rest) && wf_fingerprint(&g)) by {
                    if splits_at(s@, i as int, enc_fingerprint(&g), rest) && wf_fingerprint(&g) {
                        lemma_starts_with(s@, i16 as int, "}"@, rest);
                    }
                }
            }
            return None;
        },
    };
    let q = BrowserFingerprint { user_agent: v0, screen_resolution: (v1 as u32, v2 as u32), color_depth: v3 as u8, timezone_offset: v4 as i32, platform: v5, hardware_concurrency: v6 as u32, device_memory: v7 as u32 };
    proof {
        assert forall|g: BrowserFingerprint, rest: Seq<char>|
            #[trigger] splits_at(s@, i as int, enc_fingerprint(&g), rest) && wf_fingerprint(&g) implies (fingerprint_like(&q, &g) && i17 == i + enc_fingerprint(&g).len()) by {
                        lemma_starts_with(s@, i16 as int, "}"@, rest);
        }
    }
    Some((q, i17))
}


// ---------------------------------------------------------------------------
// Record arrays
// ---------------------------------------------------------------------------

/// All records in a sequence are well-formed.
pub open spec fn wf_records(items: Seq<VisitRecord>) -> bool {
    forall|t: int| 0 <= t < items.len() ==> wf_record(&items[t])
}

/// Pairwise value equality of record sequences.
pub open spec fn records_like(a: Seq<VisitRecord>, b: Seq<VisitRecord>) -> bool {
    a.len() == b.len() && forall|t: int| 0 <= t < a.len() ==> record_like(&a[t], &b[t])
}

/// Canonical text of a record array.
pub open spec fn enc_records(items: Seq<VisitRecord>) -> Seq<char> {
    "["@ + enc_records_body(items)
}

/// Array text after the opening bracket.
pub open spec fn enc_records_body(items: Seq<VisitRecord>) -> Seq<char>
    decreases items.len(),
{
    if items.len() == 0 {
        "]"@
    } else {
        enc_record(&items[0]) + enc_records_rest(items.drop_first())
    }
}

/// Array text after one record: either the closing bracket, or a comma and
/// the remaining records.
pub open spec fn enc_records_rest(items: Seq<VisitRecord>) -> Seq<char>
    decreases items.len(),
{
    if items.len() == 0 {
        "]"@
    } else {
        ","@ + (enc_record(&items[0]) + enc_records_rest(items.drop_first()))
    }
}

/// Render the array tail from position `k` of the pool on.
fn encode_records_rest(v: &Vec<VisitRecord>, k: usize) -> (out: String)
    requires
        1 <= k <= v@.len(),
    ensures
        out@ == enc_records_rest(v@.skip(k as int)),
    decreases v@.len() - k,
{
    if k == v.len() {
        let out = String::from_str("]");
        proof {
            assert(v@.skip(k as int) =~= Seq::<VisitRecord>::empty());
        }
        out
    } else {
        let mut out = String::from_str(",");
        let r = encode_record(&v[k]);
        out.append(r.as_str());
        let tail = encode_records_rest(v, k + 1);
        out.append(tail.as_str());
        proof {
            let sk = v@.skip(k as int);
            assert(sk[0] == v@[k as int]);
            assert(sk.drop_first() =~= v@.skip(k + 1));
            assert(out@ =~= enc_records_rest(sk));
        }
        out
    }
}

/// Render a record array.
pub fn encode_records(v: &Vec<VisitRecord>) -> (out: String)
    ensures
        out@ == enc_records(v@),
{
    let mut out = String::from_str("[");
    if v.len() == 0 {
        out.append("]");
        proof {
            assert(out@ =~= enc_records(v@));
        }
        out
    } else {
        let r0 = encode_record(&v[0]);
        out.append(r0.as_str());
        let rest = encode_records_rest(v, 1);
        out.append(rest.as_str());
        proof {
            assert(v@.skip(1) =~= v@.drop_first());
            assert(v@[0] == v@.index(0));
            assert(out@ =~= enc_records(v@));
        }
        out
    }
}

/// Read the array tail: either the closing bracket, or comma-separated
/// records up to it, appended to what is already collected.
fn parse_records_rest(s: &str, i: usize, acc: Vec<VisitRecord>) -> (r: Option<(
    Vec<VisitRecord>,
    usize,
)>)
    requires
        i <= s@.len(),
    ensures
        r matches Some((q, j)) ==> i < j <= s@.len(),
        forall|items: Seq<VisitRecord>, rest: Seq<char>|
            #[trigger] splits_at(s@, i as int, enc_records_rest(items), rest) && wf_records(items)
                ==> (r matches Some((q, j)) && q@.len() == acc@.len() + items.len() && q@.subrange(
                0,
                acc@.len() as int,
            ) == acc@ && (forall|t: int|
                0 <= t < items.len() ==> record_like(&q@[acc@.len() + t], &items[t])) && j == i
                + enc_records_rest(items).len()),
    decreases s@.len() - i,
{
    proof {
        reveal_strlit("]");
        reveal_strlit(",");
        reveal_strlit("{\"url\":\"");
    }
    match expect(s, i, "]") {
        Some(j) => {
            proof {
                assert forall|items: Seq<VisitRecord>, rest: Seq<char>|
                    #[trigger] splits_at(s@, i as int, enc_records_rest(items), rest)
                        && wf_records(items) implies (acc@.len() == acc@.len() + items.len()
                    && acc@.subrange(0, acc@.len() as int) == acc@ && (forall|t: int|
                    0 <= t < items.len() ==> record_like(&acc@[acc@.len() + t], &items[t])) && j
                    == i + enc_records_rest(items).len()) by {
                    if items.len() > 0 {
                        lemma_starts_with(s@, i as int, enc_records_rest(items), rest);
                        lemma_peel(
                            s@,
                            i as int,
                            ","@,
                            enc_record(&items[0]) + enc_records_rest(items.drop_first()),
                            rest,
                        );
                        lemma_starts_with(
                            s@,
                            i as int,
                            ","@,
                            (enc_record(&items[0]) + enc_records_rest(items.drop_first())) + rest,
                        );
                        assert(s@[i as int] == ',');
                        assert(s@.subrange(i as int, i + 1)[0] == s@[i as int]);
                        assert(false);
                    }
                    assert(acc@.subrange(0, acc@.len() as int) =~= acc@);
                }
            }
            Some((acc, j))
        },
        None => {
            let i1 = match expect(s, i, ",") {
                Some(x) => x,
                None => {
                    proof {
                        assert forall|items: Seq<VisitRecord>, rest: Seq<char>|
                            !(#[trigger] splits_at(s@, i as int, enc_records_rest(items), rest)
                                && wf_records(items)) by {
                            if splits_at(s@, i as int, enc_records_rest(items), rest)
                                && wf_records(items) {
                                if items.len() == 0 {
                                    lemma_starts_with(s@, i as int, "]"@, rest);
                                } else {
                                    lemma_peel(
                                        s@,
                                        i as int,
                                        ","@,
                                        enc_record(&items[0]) + enc_records_rest(
                                            items.drop_first(),
                                        ),
                                        rest,
                                    );
                                    lemma_starts_with(
                                        s@,
                                        i as int,
                                        ","@,
                                        (enc_record(&items[0]) + enc_records_rest(
                                            items.drop_first(),
                                        )) + rest,
                                    );
                                }
                            }
                        }
                    }
                    return None;
                },
            };
            proof {
                assert forall|items: Seq<VisitRecord>, rest: Seq<char>|
                    #[trigger] splits_at(s@, i as int, enc_records_rest(items), rest)
                        && wf_records(items) implies (items.len() > 0 && splits_at(
                    s@,
                    i1 as int,
                    enc_record(&items[0]),
                    enc_records_rest(items.drop_first()) + rest,
                ) && splits_at(
                    s@,
                    i1 + enc_record(&items[0]).len(),
                    enc_records_rest(items.drop_first()),
                    rest,
                ) && wf_record(&items[0])) by {
                    if items.len() == 0 {
                        lemma_starts_with(s@, i as int, "]"@, rest);
                        assert(false);
                    }
                    lemma_peel(
                        s@,
                        i as int,
                        ","@,
                        enc_record(&items[0]) + enc_records_rest(items.drop_first()),
                        rest,
                    );
                    lemma_peel(
                        s@,
                        i1 as int,
                        enc_record(&items[0]),
                        enc_records_rest(items.drop_first()),
                        rest,
                    );
                }
            }
            let (r0, i2) = match parse_record(s, i1) {
                Some(x) => x,
                None => {
                    proof {
                        assert forall|items: Seq<VisitRecord>, rest: Seq<char>|
                            !(#[trigger] splits_at(s@, i as int, enc_records_rest(items), rest)
                                && wf_records(items)) by {}
                    }
                    return None;
                },
            };
            proof {
                assert forall|items: Seq<VisitRecord>, rest: Seq<char>|
                    #[trigger] splits_at(s@, i as int, enc_records_rest(items), rest)
                        && wf_records(items) implies (record_like(&r0, &items[0]) && splits_at(
                    s@,
                    i2 as int,
                    enc_records_rest(items.drop_first()),
                    rest,
                ) && wf_records(items.drop_first()) && i2 == i1 + enc_record(&items[0]).len()) by {
                    assert(forall|t: int|
                        0 <= t < items.drop_first().len() ==> #[trigger] items.drop_first()[t]
                            == items[t + 1]);
                }
            }
            let mut acc2 = acc;
            let ghost acc0 = acc2@;
            acc2.push(r0);
            let res = parse_records_rest(s, i2, acc2);
            proof {
                assert forall|items: Seq<VisitRecord>, rest: Seq<char>|
                    #[trigger] splits_at(s@, i as int, enc_records_rest(items), rest)
                        && wf_records(items) implies (res matches Some((q, j)) && q@.len()
                    == acc0.len() + items.len() && q@.subrange(0, acc0.len() as int) == acc0 && (
                forall|t: int| 0 <= t < items.len() ==> record_like(&q@[acc0.len() + t], &items[t]))
                    && j == i + enc_records_rest(items).len()) by {
                    let tail = items.drop_first();
                    assert(splits_at(s@, i2 as int, enc_records_rest(tail), rest));
                    let (q, j) = res.unwrap();
                    assert(q@.subrange(0, acc0.len() as int + 1) == acc0.push(r0));
                    assert(q@.subrange(0, acc0.len() as int) =~= acc0) by {
                        assert forall|t: int| 0 <= t < acc0.len() implies q@.subrange(
                            0,
                            acc0.len() as int,
                        )[t] == acc0[t] by {
                            assert(q@.subrange(0, acc0.len() as int + 1)[t] == acc0.push(r0)[t]);
                        }
                    }
                    assert forall|t: int| 0 <= t < items.len() implies record_like(
                        &q@[acc0.len() + t],
                        &items[t],
                    ) by {
                        if t == 0 {
                            assert(q@.subrange(0, acc0.len() as int + 1)[acc0.len() as int] == acc0.push(
                                r0,
                            )[acc0.len() as int]);
                            assert(q@[acc0.len() as int] == r0);
                        } else {
                            assert(record_like(&q@[(acc0.len() as int + 1) + (t - 1)], &tail[t - 1]));
                            assert(tail[t - 1] == items[t]);
                        }
                    }
                }
            }
            res
        },
    }
}

/// Read a record array.
pub fn parse_records(s: &str, i: usize) -> (r: Option<(Vec<VisitRecord>, usize)>)
    requires
        i <= s@.len(),
    ensures
        r matches Some((q, j)) ==> i < j <= s@.len(),
        forall|items: Seq<VisitRecord>, rest: Seq<char>|
            #[trigger] splits_at(s@, i as int, enc_records(items), rest) && wf_records(items) ==> (
            r matches Some((q, j)) && records_like(q@, items) && j == i + enc_records(items).len()),
{
    proof {
        reveal_strlit("[");
        reveal_strlit("]");
        reveal_strlit("{\"url\":\"");
    }
    let i1 = match expect(s, i, "[") {
        Some(x) => x,
        None => {
            proof {
                assert forall|items: Seq<VisitRecord>, rest: Seq<char>|
                    !(#[trigger] splits_at(s@, i as int, enc_records(items), rest) && wf_records(
                        items,
                    )) by {
                    if splits_at(s@, i as int, enc_records(items), rest) && wf_records(items) {
                        lemma_peel(s@, i as int, "["@, enc_records_body(items), rest);
                        lemma_starts_with(s@, i as int, "["@, enc_records_body(items) + rest);
                    }
                }
            }
            return None;
        },
    };
    proof {
        assert forall|items: Seq<VisitRecord>, rest: Seq<char>|
            #[trigger] splits_at(s@, i as int, enc_records(items), rest) && wf_records(
                items,
            ) implies (splits_at(s@, i1 as int, enc_records_body(items), rest) && i + enc_records(
            items,
        ).len() + rest.len() == s@.len()) by {
            lemma_peel(s@, i as int, "["@, enc_records_body(items), rest);
        }
    }
    match expect(s, i1, "]") {
        Some(j) => {
            let q: Vec<VisitRecord> = Vec::new();
            proof {
                assert forall|items: Seq<VisitRecord>, rest: Seq<char>|
                    #[trigger] splits_at(s@, i as int, enc_records(items), rest) && wf_records(
                        items,
                    ) implies (records_like(q@, items) && j == i + enc_records(items).len()) by {
                    if items.len() > 0 {
                        lemma_peel(
                            s@,
                            i1 as int,
                            enc_record(&items[0]),
                            enc_records_rest(items.drop_first()),
                            rest,
                        );
                        lemma_starts_with(
                            s@,
                            i1 as int,
                            enc_record(&items[0]),
                            enc_records_rest(items.drop_first()) + rest,
                        );
                        lemma_peel(
                            s@,
                            i1 as int,
                            "{\"url\":\""@,
                            rec_tail1(&items[0]),
                            enc_records_rest(items.drop_first()) + rest,
                        );
                        assert(s@[i1 as int] == '{');
                        assert(s@.subrange(i1 as int, i1 + 1)[0] == s@[i1 as int]);
                        assert(false);
                    }
                }
            }
            Some((q, j))
        },
        None => {
            proof {
                assert forall|items: Seq<VisitRecord>, rest: Seq<char>|
                    #[trigger] splits_at(s@, i as int, enc_records(items), rest) && wf_records(
                        items,
                    ) implies (items.len() > 0 && splits_at(
                    s@,
                    i1 as int,
                    enc_record(&items[0]),
                    enc_records_rest(items.drop_first()) + rest,
                ) && splits_at(
                    s@,
                    i1 + enc_record(&items[0]).len(),
                    enc_records_rest(items.drop_first()),
                    rest,
                ) && wf_record(&items[0]) && wf_records(items.drop_first())) by {
                    if items.len() == 0 {
                        lemma_starts_with(s@, i1 as int, "]"@, rest);
                        assert(false);
                    }
                    lemma_peel(
                        s@,
                        i1 as int,
                        enc_record(&items[0]),
                        enc_records_rest(items.drop_first()),
                        rest,
                    );
                    assert(forall|t: int|
                        0 <= t < items.drop_first().len() ==> #[trigger] items.drop_first()[t]
                            == items[t + 1]);
                }
            }
            let (r0, i2) = match parse_record(s, i1) {
                Some(x) => x,
                None => {
                    proof {
                        assert forall|items: Seq<VisitRecord>, rest: Seq<char>|
                            !(#[trigger] splits_at(s@, i as int, enc_records(items), rest)
                                && wf_records(items)) by {}
                    }
                    return None;
                },
            };
            let mut acc: Vec<VisitRecord> = Vec::new();
            acc.push(r0);
            let res = parse_records_rest(s, i2, acc);
            proof {
                assert forall|items: Seq<VisitRecord>, rest: Seq<char>|
                    #[trigger] splits_at(s@, i as int, enc_records(items), rest) && wf_records(
                        items,
                    ) implies (res matches Some((q, j)) && records_like(q@, items) && j == i
                    + enc_records(items).len()) by {
                    let tail = items.drop_first();
                    assert(record_like(&r0, &items[0]));
                    assert(i2 == i1 + enc_record(&items[0]).len());
                    assert(splits_at(s@, i2 as int, enc_records_rest(tail), rest));
                    let (q, j) = res.unwrap();
                    assert(q@.len() == 1 + tail.len());
                    assert forall|t: int| 0 <= t < items.len() implies record_like(
                        &q@[t],
                        &items[t],
                    ) by {
                        if t == 0 {
                            assert(q@.subrange(0, 1)[0] == q@[0]);
                            assert(q@.subrange(0, 1) == acc@);
                        } else {
                            assert(record_like(&q@[1 + (t - 1)], &tail[t - 1]));
                            assert(tail[t - 1] == items[t]);
                        }
                    }
                }
            }
            res
        },
    }
}

// ---------------------------------------------------------------------------
// Whole profiles
// ---------------------------------------------------------------------------

/// A profile whose strings are plain.
pub open spec fn wf_profile(p: &SyntheticProfile) -> bool {
    &&& plain_seq(p.id@)
    &&& wf_metadata(&p.metadata)
    &&& wf_records(p.visit_history@)
    &&& wf_fingerprint(&p.fingerprint)
    &&& plain_seq(p.profile_dir@)
}

/// Canonical text of the record.
pub open spec fn enc_profile(m: &SyntheticProfile) -> Seq<char> {
    "{\"id\":\""@ + pr_tail1(m)
}

/// Text of the record from part 1 on.
pub open spec fn pr_tail1(m: &SyntheticProfile) -> Seq<char> {
    (m.id@ + seq!['"']) + pr_tail2(m)
}

/// Text of the record from part 2 on.
pub open spec fn pr_tail2(m: &SyntheticProfile) -> Seq<char> {
    ",\"metadata\":"@ + pr_tail3(m)
}

/// Text of the record from part 3 on.
pub open spec fn pr_tail3(m: &SyntheticProfile) -> Seq<char> {
    enc_metadata(&m.metadata) + pr_tail4(m)
}

/// Text of the record from part 4 on.
pub open spec fn pr_tail4(m: &SyntheticProfile) -> Seq<char> {
    ",\"visit_history\":"@ + pr_tail5(m)
}

/// Text of the record from part 5 on.
pub open spec fn pr_tail5(m: &SyntheticProfile) -> Seq<char> {
    enc_records(m.visit_history@) + pr_tail6(m)
}

/// Text of the record from part 6 on.
pub open spec fn pr_tail6(m: &SyntheticProfile) -> Seq<char> {
    ",\"cache_size_mb\":"@ + pr_tail7(m)
}

/// Text of the record from part 7 on.
pub open spec fn pr_tail7(m: &SyntheticProfile) -> Seq<char> {
    spec_dec_u64(m.cache_size_mb as nat) + pr_tail8(m)
}

/// Text of the record from part 8 on.
pub open spec fn pr_tail8(m: &SyntheticProfile) -> Seq<char> {
    ",\"cookie_count\":"@ + pr_tail9(m)
}

/// Text of the record from part 9 on.
pub open spec fn pr_tail9(m: &SyntheticProfile) -> Seq<char> {
    spec_dec_u64(m.cookie_count as nat) + pr_tail10(m)
}

/// Text of the record from part 10 on.
pub open spec fn pr_tail10(m: &SyntheticProfile) -> Seq<char> {
    ",\"fingerprint\":"@ + pr_tail11(m)
}

/// Text of the record from part 11 on.
pub open spec fn pr_tail11(m: &SyntheticProfile) -> Seq<char> {
    enc_fingerprint(&m.fingerprint) + pr_tail12(m)
}

/// Text of the record from part 12 on.
pub open spec fn pr_tail12(m: &SyntheticProfile) -> Seq<char> {
    ",\"profile_dir\":\""@ + pr_tail13(m)
}

/// Text of the record from part 13 on.
pub open spec fn pr_tail13(m: &SyntheticProfile) -> Seq<char> {
    (m.profile_dir@ + seq!['"']) + "}"@
}

/// Render the record.
pub fn encode_profile(m: &SyntheticProfile) -> (out: String)
    ensures
        out@ == enc_profile(m),
{
    let mut t13 = m.profile_dir.clone();
    t13.append("\"");
    t13.append("}");
    let mut t12 = String::from_str(",\"profile_dir\":\"");
    t12.append(t13.as_str());
    let mut t11 = encode_fingerprint(&m.fingerprint);
    t11.append(t12.as_str());
    let mut t10 = String::from_str(",\"fingerprint\":");
    t10.append(t11.as_str());
    let mut t9 = u64_to_string(m.cookie_count as u64);
    t9.append(t10.as_str());
    let mut t8 = String::from_str(",\"cookie_count\":");
    t8.append(t9.as_str());
    let mut t7 = u64_to_string(m.cache_size_mb as u64);
    t7.append(t8.as_str());
    let mut t6 = String::from_str(",\"cache_size_mb\":");
    t6.append(t7.as_str());
    let mut t5 = encode_records(&m.visit_history);
    t5.append(t6.as_str());
    let mut t4 = String::from_str(",\"visit_history\":");
    t4.append(t5.as_str());
    let mut t3 = encode_metadata(&m.metadata);
    t3.append(t4.as_str());
    let mut t2 = String::from_str(",\"metadata\":");
    t2.append(t3.as_str());
    let mut t1 = m.id.clone();
    t1.append("\"");
    t1.append(t2.as_str());
    let mut out = String::from_str("{\"id\":\"");
    out.append(t1.as_str());
    proof {
        assert(seq!['"'] =~= "\""@) by {
            reveal_strlit("\"");
        }
        assert(t13@ =~= pr_tail13(m));
        assert(t12@ =~= pr_tail12(m));
        assert(t11@ =~= pr_tail11(m));
        assert(t10@ =~= pr_tail10(m));
        assert(t9@ =~= pr_tail9(m));
        assert(t8@ =~= pr_tail8(m));
        assert(t7@ =~= pr_tail7(m));
        assert(t6@ =~= pr_tail6(m));
        assert(t5@ =~= pr_tail5(m));
        assert(t4@ =~= pr_tail4(m));
        assert(t3@ =~= pr_tail3(m));
        assert(t2@ =~= pr_tail2(m));
        assert(t1@ =~= pr_tail1(m));
        assert(out@ =~= enc_profile(m));
    }
    out
}

/// At one number position, the number and its non-digit boundary.
proof fn lemma_pr_num7_split(s: Seq<char>, p: int, g: &SyntheticProfile, rest: Seq<char>)
    requires
        0 <= p <= s.len(),
        splits_at(s, p, pr_tail7(g), rest),
    ensures
        splits_at(s, p, spec_dec_u64((g.cache_size_mb as u64) as nat), pr_tail8(g) + rest),
        (pr_tail8(g) + rest).len() == 0 || !is_dec_digit((pr_tail8(g) + rest)[0]),
        splits_at(s, p + spec_dec_u64((g.cache_size_mb as u64) as nat).len(), pr_tail8(g), rest),
{
    lemma_peel(s, p, spec_dec_u64(g.cache_size_mb as nat), pr_tail8(g), rest);
    reveal_strlit(",\"cookie_count\":");
    assert((pr_tail8(g) + rest)[0] == pr_tail8(g)[0]);
    assert(pr_tail8(g)[0] == ",\"cookie_count\":"@[0]);
}

/// At one number position, the number and its non-digit boundary.
proof fn lemma_pr_num9_split(s: Seq<char>, p: int, g: &SyntheticProfile, rest: Seq<char>)
    requires
        0 <= p <= s.len(),
        splits_at(s, p, pr_tail9(g), rest),
    ensures
        splits_at(s, p, spec_dec_u64((g.cookie_count as u64) as nat), pr_tail10(g) + rest),
        (pr_tail10(g) + rest).len() == 0 || !is_dec_digit((pr_tail10(g) + rest)[0]),
        splits_at(s, p + spec_dec_u64((g.cookie_count as u64) as nat).len(), pr_tail10(g), rest),
{
    lemma_peel(s, p, spec_dec_u64(g.cookie_count as nat), pr_tail10(g), rest);
    reveal_strlit(",\"fingerprint\":");
    assert((pr_tail10(g) + rest)[0] == pr_tail10(g)[0]);
    assert(pr_tail10(g)[0] == ",\"fingerprint\":"@[0]);
}

/// Read the record back.
#[verifier::rlimit(100)]
pub fn parse_profile(s: &str, i: usize) -> (r: Option<(SyntheticProfile, usize)>)
    requires
        i <= s@.len(),
    ensures
        r matches Some((q, j)) ==> i < j <= s@.len(),
        forall|g: SyntheticProfile, rest: Seq<char>|
            #[trigger] splits_at(s@, i as int, enc_profile(&g), rest) && wf_profile(&g) ==> (
            r matches Some((q, j)) && profile_like(&q, &g) && j == i + enc_profile(&g).len()),
{
    let i1 = match expect(s, i, "{\"id\":\"") {
        Some(x) => x,
        None => {
            proof {
                assert forall|g: SyntheticProfile, rest: Seq<char>|
                    !(#[trigger] splits_at(s@, i as int, enc_profile(&g), rest) && wf_profile(&g)) by {
                    if splits_at(s@, i as int, enc_profile(&g), rest) && wf_profile(&g) {
                        lemma_peel(s@, i as int, "{\"id\":\""@, pr_tail1(&g), rest);
                        lemma_starts_with(s@, i as int, "{\"id\":\""@, pr_tail1(&g) + rest);
                    }
                }
            }
            return None;
        },
    };
    proof {
        assert forall|g: SyntheticProfile, rest: Seq<char>|
            #[trigger] splits_at(s@, i as int, enc_profile(&g), rest) && wf_profile(&g) implies (splits_at(s@, i1 as int, pr_tail1(&g), rest) && i + enc_profile(&g).len() + rest.len() == s@.len()) by {
                        lemma_peel(s@, i as int, "{\"id\":\""@, pr_tail1(&g), rest);
        }
    }
    let (v0, i2) = match parse_string_body(s, i1) {
        Some(x) => x,
        None => {
            proof {
                assert forall|g: SyntheticProfile, rest: Seq<char>|
                    !(#[trigger] splits_at(s@, i as int, enc_profile(&g), rest) && wf_profile(&g)) by {
                    if splits_at(s@, i as int, enc_profile(&g), rest) && wf_profile(&g) {
                        lemma_peel(s@, i1 as int, g.id@ + seq!['"'], pr_tail2(&g), rest);
                    }
                }
            }
            return None;
        },
    };
    proof {
        assert forall|g: SyntheticProfile, rest: Seq<char>|
            #[trigger] splits_at(s@, i as int, enc_profile(&g), rest) && wf_profile(&g) implies (v0@ == g.id@ && splits_at(s@, i2 as int, pr_tail2(&g), rest)) by {
                        lemma_peel(s@, i1 as int, g.id@ + seq!['"'], pr_tail2(&g), rest);
        }
    }
    let i3 = match expect(s, i2, ",\"metadata\":") {
        Some(x) => x,
        None => {
            proof {
                assert forall|g: SyntheticProfile, rest: Seq<char>|
                    !(#[trigger] splits_at(s@, i as int, enc_profile(&g), rest) && wf_profile(&g)) by {
                    if splits_at(s@, i as int, enc_profile(&g), rest) && wf_profile(&g) {
                        lemma_peel(s@, i2 as int, ",\"metadata\":"@, pr_tail3(&g), rest);
                        lemma_starts_with(s@, i2 as int, ",\"metadata\":"@, pr_tail3(&g) + rest);
                    }
                }
            }
            return None;
        },
    };
    proof {
        assert forall|g: SyntheticProfile, rest: Seq<char>|
            #[trigger] splits_at(s@, i as int, enc_profile(&g), rest) && wf_profile(&g) implies (splits_at(s@, i3 as int, pr_tail3(&g), rest)) by {
                        lemma_peel(s@, i2 as int, ",\"metadata\":"@, pr_tail3(&g), rest);
        }
    }
    let (v1, i4) = match parse_metadata(s, i3) {
        Some(x) => x,
        None => {
            proof {
                assert forall|g: SyntheticProfile, rest: Seq<char>|
                    !(#[trigger] splits_at(s@, i as int, enc_profile(&g), rest) && wf_profile(&g)) by {
                    if splits_at(s@, i as int, enc_profile(&g), rest) && wf_profile(&g) {
                        lemma_peel(s@, i3 as int, enc_metadata(&g.metadata), pr_tail4(&g), rest);
                    }
                }
            }
            return None;
        },
    };
    proof {
        assert forall|g: SyntheticProfile, rest: Seq<char>|
            #[trigger] splits_at(s@, i as int, enc_profile(&g), rest) && wf_profile(&g) implies (metadata_like(&v1, &g.metadata) && splits_at(s@, i4 as int, pr_tail4(&g), rest)) by {
                        lemma_peel(s@, i3 as int, enc_metadata(&g.metadata), pr_tail4(&g), rest);
        }
    }
    let i5 = match expect(s, i4, ",\"visit_history\":") {
        Some(x) => x,
        None => {
            proof {
                assert forall|g: SyntheticProfile, rest: Seq<char>|
                    !(#[trigger] splits_at(s@, i as int, enc_profile(&g), rest) && wf_profile(&g)) by {
                    if splits_at(s@, i as int, enc_profile(&g), rest) && wf_profile(&g) {
                        lemma_peel(s@, i4 as int, ",\"visit_history\":"@, pr_tail5(&g), rest);
                        lemma_starts_with(s@, i4 as int, ",\"visit_history\":"@, pr_tail5(&g) + rest);
                    }
                }
            }
            return None;
        },
    };
    proof {
        assert forall|g: SyntheticProfile, rest: Seq<char>|
            #[trigger] splits_at(s@, i as int, enc_profile(&g), rest) && wf_profile(&g) implies (splits_at(s@, i5 as int, pr_tail5(&g), rest)) by {
                        lemma_peel(s@, i4 as int, ",\"visit_history\":"@, pr_tail5(&g), rest);
        }
    }
    let (v2, i6) = match parse_records(s, i5) {
        Some(x) => x,
        None => {
            proof {
                assert forall|g: SyntheticProfile, rest: Seq<char>|
                    !(#[trigger] splits_at(s@, i as int, enc_profile(&g), rest) && wf_profile(&g)) by {
                    if splits_at(s@, i as int, enc_profile(&g), rest) && wf_profile(&g) {
                        lemma_peel(s@, i5 as int, enc_records(g.visit_history@), pr_tail6(&g), rest);
                    }
                }
            }
            return None;
        },
    };
    proof {
        assert forall|g: SyntheticProfile, rest: Seq<char>|
            #[trigger] splits_at(s@, i as int, enc_profile(&g), rest) && wf_profile(&g) implies (records_like(v2@, g.visit_history@) && splits_at(s@, i6 as int, pr_tail6(&g), rest)) by {
                        lemma_peel(s@, i5 as int, enc_records(g.visit_history@), pr_tail6(&g), rest);
        }
    }
    let i7 = match expect(s, i6, ",\"cache_size_mb\":") {
        Some(x) => x,
        None => {
            proof {
                assert forall|g: SyntheticProfile, rest: Seq<char>|
                    !(#[trigger] splits_at(s@, i as int, enc_profile(&g), rest) && wf_profile(&g)) by {
                    if splits_at(s@, i as int, enc_profile(&g), rest) && wf_profile(&g) {
                        lemma_peel(s@, i6 as int, ",\"cache_size_mb\":"@, pr_tail7(&g), rest);
                        lemma_starts_with(s@, i6 as int, ",\"cache_size_mb\":"@, pr_tail7(&g) + rest);
                    }
                }
            }
            return None;
        },
    };
    proof {
        assert forall|g: SyntheticProfile, rest: Seq<char>|
            #[trigger] splits_at(s@, i as int, enc_profile(&g), rest) && wf_profile(&g) implies (splits_at(s@, i7 as int, pr_tail7(&g), rest)) by {
                        lemma_peel(s@, i6 as int, ",\"cache_size_mb\":"@, pr_tail7(&g), rest);
        }
    }
    let (v3, i8) = match parse_u64(s, i7) {
        Some(x) => x,
        None => {
            proof {
                assert forall|g: SyntheticProfile, rest: Seq<char>|
                    !(#[trigger] splits_at(s@, i as int, enc_profile(&g), rest) && wf_profile(&g)) by {
                    if splits_at(s@, i as int, enc_profile(&g), rest) && wf_profile(&g) {
                        lemma_pr_num7_split(s@, i7 as int, &g, rest);
                    }
                }
            }
            return None;
        },
    };
    proof {
        assert forall|g: SyntheticProfile, rest: Seq<char>|
            #[trigger] splits_at(s@, i as int, enc_profile(&g), rest) && wf_profile(&g) implies (v3 == g.cache_size_mb as u64 && splits_at(s@, i8 as int, pr_tail8(&g), rest)) by {
                        lemma_pr_num7_split(s@, i7 as int, &g, rest);
        }
    }
    let i9 = match expect(s, i8, ",\"cookie_count\":") {
        Some(x) => x,
        None => {
            proof {
                assert forall|g: SyntheticProfile, rest: Seq<char>|
                    !(#[trigger] splits_at(s@, i as int, enc_profile(&g), rest) && wf_profile(&g)) by {
                    if splits_at(s@, i as int, enc_profile(&g), rest) && wf_profile(&g) {
                        lemma_peel(s@, i8 as int, ",\"cookie_count\":"@, pr_tail9(&g), rest);
                        lemma_starts_with(s@, i8 as int, ",\"cookie_count\":"@, pr_tail9(&g) + rest);
                    }
                }
            }
            return None;
        },
    };
    proof {
        assert forall|g: SyntheticProfile, rest: Seq<char>|
            #[trigger] splits_at(s@, i as int, enc_profile(&g), rest) && wf_profile(&g) implies (splits_at(s@, i9 as int, pr_tail9(&g), rest)) by {
                        lemma_peel(s@, i8 as int, ",\"cookie_count\":"@, pr_tail9(&g), rest);
        }
    }
    let (v4, i10) = match parse_u64(s, i9) {
        Some(x) => x,
        None => {
            proof {
                assert forall|g: SyntheticProfile, rest: Seq<char>|
                    !(#[trigger] splits_at(s@, i as int, enc_profile(&g), rest) && wf_profile(&g)) by {
                    if splits_at(s@, i as int, enc_profile(&g), rest) && wf_profile(&g) {
                        lemma_pr_num9_split(s@, i9 as int, &g, rest);
                    }
                }
            }
            return None;
        },
    };
    proof {
        assert forall|g: SyntheticProfile, rest: Seq<char>|
            #[trigger] splits_at(s@, i as int, enc_profile(&g), rest) && wf_profile(&g) implies (v4 == g.cookie_count as u64 && splits_at(s@, i10 as int, pr_tail10(&g), rest)) by {
                        lemma_pr_num9_split(s@, i9 as int, &g, rest);
        }
    }
    if v4 > usize::MAX as u64 {
        proof {
                assert forall|g: SyntheticProfile, rest: Seq<char>|
                    !(#[trigger] splits_at(s@, i as int, enc_profile(&g), rest) && wf_profile(&g)) by {
                    if splits_at(s@, i as int, enc_profile(&g), rest) && wf_profile(&g) {
                    }
                }
        }
        return None;
    }
    let i11 = match expect(s, i10, ",\"fingerprint\":") {
        Some(x) => x,
        None => {
            proof {
                assert forall|g: SyntheticProfile, rest: Seq<char>|
                    !(#[trigger] splits_at(s@, i as int, enc_profile(&g), rest) && wf_profile(&g)) by {
                    if splits_at(s@, i as int, enc_profile(&g), rest) && wf_profile(&g) {
                        lemma_peel(s@, i10 as int, ",\"fingerprint\":"@, pr_tail11(&g), rest);
                        lemma_starts_with(s@, i10 as int, ",\"fingerprint\":"@, pr_tail11(&g) + rest);
                    }
                }
            }
            return None;
        },
    };
    proof {
        assert forall|g: SyntheticProfile, rest: Seq<char>|
            #[trigger] splits_at(s@, i as int, enc_profile(&g), rest) && wf_profile(&g) implies (splits_at(s@, i11 as int, pr_tail11(&g), rest)) by {
                        lemma_peel(s@, i10 as int, ",\"fingerprint\":"@, pr_tail11(&g), rest);
        }
    }
    let (v5, i12) = match parse_fingerprint(s, i11) {
        Some(x) => x,
        None => {
            proof {
                assert forall|g: SyntheticProfile, rest: Seq<char>|
                    !(#[trigger] splits_at(s@, i as int, enc_profile(&g), rest) && wf_profile(&g)) by {
                    if splits_at(s@, i as int, enc_profile(&g), rest) && wf_profile(&g) {
                        lemma_peel(s@, i11 as int, enc_fingerprint(&g.fingerprint), pr_tail12(&g), rest);
                    }
                }
            }
            return None;
        },
    };
    proof {
        assert forall|g: SyntheticProfile, rest: Seq<char>|
            #[trigger] splits_at(s@, i as int, enc_profile(&g), rest) && wf_profile(&g) implies (fingerprint_like(&v5, &g.fingerprint) && splits_at(s@, i12 as int, pr_tail12(&g), rest)) by {
                        lemma_peel(s@, i11 as int, enc_fingerprint(&g.fingerprint), pr_tail12(&g), rest);
        }
    }
    let i13 = match expect(s, i12, ",\"profile_dir\":\"") {
        Some(x) => x,
        None => {
            proof {
                assert forall|g: SyntheticProfile, rest: Seq<char>|
                    !(#[trigger] splits_at(s@, i as int, enc_profile(&g), rest) && wf_profile(&g)) by {
                    if splits_at(s@, i as int, enc_profile(&g), rest) && wf_profile(&g) {
                        lemma_peel(s@, i12 as int, ",\"profile_dir\":\""@, pr_tail13(&g), rest);
                        lemma_starts_with(s@, i12 as int, ",\"profile_dir\":\""@, pr_tail13(&g) + rest);
                    }
                }
            }
            return None;
        },
    };
    proof {
        assert forall|g: SyntheticProfile, rest: Seq<char>|
            #[trigger] splits_at(s@, i as int, enc_profile(&g), rest) && wf_profile(&g) implies (splits_at(s@, i13 as int, pr_tail13(&g), rest)) by {
                        lemma_peel(s@, i12 as int, ",\"profile_dir\":\""@, pr_tail13(&g), rest);
        }
    }
    let (v6, i14) = match parse_string_body(s, i13) {
        Some(x) => x,
        None => {
            proof {
                assert forall|g: SyntheticProfile, rest: Seq<char>|
                    !(#[trigger] splits_at(s@, i as int, enc_profile(&g), rest) && wf_profile(&g)) by {
                    if splits_at(s@, i as int, enc_profile(&g), rest) && wf_profile(&g) {
                        lemma_peel(s@, i13 as int, g.profile_dir@ + seq!['"'], "}"@, rest);
                    }
                }
            }
            return None;
        },
    };
    proof {
        assert forall|g: SyntheticProfile, rest: Seq<char>|
            #[trigger] splits_at(s@, i as int, enc_profile(&g), rest) && wf_profile(&g) implies (v6@ == g.profile_dir@ && splits_at(s@, i14 as int, "}"@, rest)) by {
                        lemma_peel(s@, i13 as int, g.profile_dir@ + seq!['"'], "}"@, rest);
        }
    }
    let i15 = match expect(s, i14, "}") {
        Some(x) => x,
        None => {
            proof {
                assert forall|g: SyntheticProfile, rest: Seq<char>|
                    !(#[trigger] splits_at(s@, i as int, enc_profile(&g), rest) && wf_profile(&g)) by {
                    if splits_at(s@, i as int, enc_profile(&g), rest) && wf_profile(&g) {
                        lemma_starts_with(s@, i14 as int, "}"@, rest);
                    }
                }
            }
            return None;
        },
    };
    let q = SyntheticProfile { id: v0, metadata: v1, visit_history: v2, cache_size_mb: v3, cookie_count: v4 as usize, fingerprint: v5, profile_dir: v6 };
    proof {
        assert forall|g: SyntheticProfile, rest: Seq<char>|
            #[trigger] splits_at(s@, i as int, enc_profile(&g), rest) && wf_profile(&g) implies (profile_like(&q, &g) && i15 == i + enc_profile(&g).len()) by {
                        lemma_starts_with(s@, i14 as int, "}"@, rest);
        }
    }
    Some((q, i15))
}

// ---------------------------------------------------------------------------
// Profile arrays
// ---------------------------------------------------------------------------

/// All profiles in a sequence are well-formed.
pub open spec fn wf_profiles(items: Seq<SyntheticProfile>) -> bool {
    forall|t: int| 0 <= t < items.len() ==> wf_profile(&items[t])
}

/// Pairwise value equality of profile sequences.
pub open spec fn profiles_like(a: Seq<SyntheticProfile>, b: Seq<SyntheticProfile>) -> bool {
    a.len() == b.len() && forall|t: int| 0 <= t < a.len() ==> profile_like(&a[t], &b[t])
}

/// Canonical text of a profile array.
pub open spec fn enc_profiles(items: Seq<SyntheticProfile>) -> Seq<char> {
    "["@ + enc_profiles_body(items)
}

/// Array text after the opening bracket.
pub open spec fn enc_profiles_body(items: Seq<SyntheticProfile>) -> Seq<char>
    decreases items.len(),
{
    if items.len() == 0 {
        "]"@
    } else {
        enc_profile(&items[0]) + enc_profiles_rest(items.drop_first())
    }
}

/// Array text after one record: either the closing bracket, or a comma and
/// the remaining records.
pub open spec fn enc_profiles_rest(items: Seq<SyntheticProfile>) -> Seq<char>
    decreases items.len(),
{
    if items.len() == 0 {
        "]"@
    } else {
        ","@ + (enc_profile(&items[0]) + enc_profiles_rest(items.drop_first()))
    }
}

/// Render the array tail from position `k` of the pool on.
#[verifier::rlimit(60)]
fn encode_profiles_rest(v: &Vec<SyntheticProfile>, k: usize) -> (out: String)
    requires
        1 <= k <= v@.len(),
    ensures
        out@ == enc_profiles_rest(v@.skip(k as int)),
    decreases v@.len() - k,
{
    if k == v.len() {
        let out = String::from_str("]");
        proof {
            assert(v@.skip(k as int) =~= Seq::<SyntheticProfile>::empty());
        }
        out
    } else {
        let mut out = String::from_str(",");
        let r = encode_profile(&v[k]);
        out.append(r.as_str());
        let tail = encode_profiles_rest(v, k + 1);
        out.append(tail.as_str());
        proof {
            let sk = v@.skip(k as int);
            assert(sk[0] == v@[k as int]);
            assert(sk.drop_first() =~= v@.skip(k + 1));
            assert(out@ =~= enc_profiles_rest(sk));
        }
        out
    }
}

/// Render a profile array.
pub fn encode_profiles(v: &Vec<SyntheticProfile>) -> (out: String)
    ensures
        out@ == enc_profiles(v@),
{
    let mut out = String::from_str("[");
    if v.len() == 0 {
        out.append("]");
        proof {
            assert(out@ =~= enc_profiles(v@));
        }
        out
    } else {
        let r0 = encode_profile(&v[0]);
        out.append(r0.as_str());
        let rest = encode_profiles_rest(v, 1);
        out.append(rest.as_str());
        proof {
            assert(v@.skip(1) =~= v@.drop_first());
            assert(v@[0] == v@.index(0));
            assert(out@ =~= enc_profiles(v@));
        }
        out
    }
}

/// Read the array tail: either the closing bracket, or comma-separated
/// records up to it, appended to what is already collected.
#[verifier::rlimit(100)]
fn parse_profiles_rest(s: &str, i: usize, acc: Vec<SyntheticProfile>) -> (r: Option<(
    Vec<SyntheticProfile>,
    usize,
)>)
    requires
        i <= s@.len(),
    ensures
        r matches Some((q, j)) ==> i < j <= s@.len(),
        forall|items: Seq<SyntheticProfile>, rest: Seq<char>|
            #[trigger] splits_at(s@, i as int, enc_profiles_rest(items), rest) && wf_profiles(items)
                ==> (r matches Some((q, j)) && q@.len() == acc@.len() + items.len() && q@.subrange(
                0,
                acc@.len() as int,
            ) == acc@ && (forall|t: int|
                0 <= t < items.len() ==> profile_like(&q@[acc@.len() + t], &items[t])) && j == i
                + enc_profiles_rest(items).len()),
    decreases s@.len() - i,
{
    proof {
        reveal_strlit("]");
        reveal_strlit(",");
        reveal_strlit("{\"id\":\"");
    }
    match expect(s, i, "]") {
        Some(j) => {
            proof {
                assert forall|items: Seq<SyntheticProfile>, rest: Seq<char>|
                    #[trigger] splits_at(s@, i as int, enc_profiles_rest(items), rest)
                        && wf_profiles(items) implies (acc@.len() == acc@.len() + items.len()
                    && acc@.subrange(0, acc@.len() as int) == acc@ && (forall|t: int|
                    0 <= t < items.len() ==> profile_like(&acc@[acc@.len() + t], &items[t])) && j
                    == i + enc_profiles_rest(items).len()) by {
                    if items.len() > 0 {
                        lemma_starts_with(s@, i as int, enc_profiles_rest(items), rest);
                        lemma_peel(
                            s@,
                            i as int,
                            ","@,
                            enc_profile(&items[0]) + enc_profiles_rest(items.drop_first()),
                            rest,
                        );
                        lemma_starts_with(
                            s@,
                            i as int,
                            ","@,
                            (enc_profile(&items[0]) + enc_profiles_rest(items.drop_first())) + rest,
                        );
                        assert(s@[i as int] == ',');
                        assert(s@.subrange(i as int, i + 1)[0] == s@[i as int]);
                        assert(false);
                    }
                    assert(acc@.subrange(0, acc@.len() as int) =~= acc@);
                }
            }
            Some((acc, j))
        },
        None => {
            let i1 = match expect(s, i, ",") {
                Some(x) => x,
                None => {
                    proof {
                        assert forall|items: Seq<SyntheticProfile>, rest: Seq<char>|
                            !(#[trigger] splits_at(s@, i as int, enc_profiles_rest(items), rest)
                                && wf_profiles(items)) by {
                            if splits_at(s@, i as int, enc_profiles_rest(items), rest)
                                && wf_profiles(items) {
                                if items.len() == 0 {
                                    lemma_starts_with(s@, i as int, "]"@, rest);
                                } else {
                                    lemma_peel(
                                        s@,
                                        i as int,
                                        ","@,
                                        enc_profile(&items[0]) + enc_profiles_rest(
                                            items.drop_first(),
                                        ),
                                        rest,
                                    );
                                    lemma_starts_with(
                                        s@,
                                        i as int,
                                        ","@,
                                        (enc_profile(&items[0]) + enc_profiles_rest(
                                            items.drop_first(),
                                        )) + rest,
                                    );
                                }
                            }
                        }
                    }
                    return None;
                },
            };
            proof {
                assert forall|items: Seq<SyntheticProfile>, rest: Seq<char>|
                    #[trigger] splits_at(s@, i as int, enc_profiles_rest(items), rest)
                        && wf_profiles(items) implies (items.len() > 0 && splits_at(
                    s@,
                    i1 as int,
                    enc_profile(&items[0]),
                    enc_profiles_rest(items.drop_first()) + rest,
                ) && splits_at(
                    s@,
                    i1 + enc_profile(&items[0]).len(),
                    enc_profiles_rest(items.drop_first()),
                    rest,
                ) && wf_profile(&items[0])) by {
                    if items.len() == 0 {
                        lemma_starts_with(s@, i as int, "]"@, rest);
                        assert(false);
                    }
                    lemma_peel(
                        s@,
                        i as int,
                        ","@,
                        enc_profile(&items[0]) + enc_profiles_rest(items.drop_first()),
                        rest,
                    );
                    lemma_peel(
                        s@,
                        i1 as int,
                        enc_profile(&items[0]),
                        enc_profiles_rest(items.drop_first()),
                        rest,
                    );
                }
            }
            let (r0, i2) = match parse_profile(s, i1) {
                Some(x) => x,
                None => {
                    proof {
                        assert forall|items: Seq<SyntheticProfile>, rest: Seq<char>|
                            !(#[trigger] splits_at(s@, i as int, enc_profiles_rest(items), rest)
                                && wf_profiles(items)) by {}
                    }
                    return None;
                },
            };
            proof {
                assert forall|items: Seq<SyntheticProfile>, rest: Seq<char>|
                    #[trigger] splits_at(s@, i as int, enc_profiles_rest(items), rest)
                        && wf_profiles(items) implies (profile_like(&r0, &items[0]) && splits_at(
                    s@,
                    i2 as int,
                    enc_profiles_rest(items.drop_first()),
                    rest,
                ) && wf_profiles(items.drop_first()) && i2 == i1 + enc_profile(&items[0]).len()) by {
                    assert(forall|t: int|
                        0 <= t < items.drop_first().len() ==> #[trigger] items.drop_first()[t]
                            == items[t + 1]);
                }
            }
            let mut acc2 = acc;
            let ghost acc0 = acc2@;
            acc2.push(r0);
            let res = parse_profiles_rest(s, i2, acc2);
            proof {
                assert forall|items: Seq<SyntheticProfile>, rest: Seq<char>|
                    #[trigger] splits_at(s@, i as int, enc_profiles_rest(items), rest)
                        && wf_profiles(items) implies (res matches Some((q, j)) && q@.len()
                    == acc0.len() + items.len() && q@.subrange(0, acc0.len() as int) == acc0 && (
                forall|t: int| 0 <= t < items.len() ==> profile_like(&q@[acc0.len() + t], &items[t]))
                    && j == i + enc_profiles_rest(items).len()) by {
                    let tail = items.drop_first();
                    assert(splits_at(s@, i2 as int, enc_profiles_rest(tail), rest));
                    let (q, j) = res.unwrap();
                    assert(q@.subrange(0, acc0.len() as int + 1) == acc0.push(r0));
                    assert(q@.subrange(0, acc0.len() as int) =~= acc0) by {
                        assert forall|t: int| 0 <= t < acc0.len() implies q@.subrange(
                            0,
                            acc0.len() as int,
                        )[t] == acc0[t] by {
                            assert(q@.subrange(0, acc0.len() as int + 1)[t] == acc0.push(r0)[t]);
                        }
                    }
                    assert forall|t: int| 0 <= t < items.len() implies profile_like(
                        &q@[acc0.len() + t],
                        &items[t],
                    ) by {
                        if t == 0 {
                            assert(q@.subrange(0, acc0.len() as int + 1)[acc0.len() as int] == acc0.push(
                                r0,
                            )[acc0.len() as int]);
                            assert(q@[acc0.len() as int] == r0);
                        } else {
                            assert(profile_like(&q@[(acc0.len() as int + 1) + (t - 1)], &tail[t - 1]));
                            assert(tail[t - 1] == items[t]);
                        }
                    }
                }
            }
            res
        },
    }
}

/// Read a profile array.
#[verifier::rlimit(100)]
pub fn parse_profiles(s: &str, i: usize) -> (r: Option<(Vec<SyntheticProfile>, usize)>)
    requires
        i <= s@.len(),
    ensures
        r matches Some((q, j)) ==> i < j <= s@.len(),
        forall|items: Seq<SyntheticProfile>, rest: Seq<char>|
            #[trigger] splits_at(s@, i as int, enc_profiles(items), rest) && wf_profiles(items) ==> (
            r matches Some((q, j)) && profiles_like(q@, items) && j == i + enc_profiles(items).len()),
{
    proof {
        reveal_strlit("[");
        reveal_strlit("]");
        reveal_strlit("{\"id\":\"");
    }
    let i1 = match expect(s, i, "[") {
        Some(x) => x,
        None => {
            proof {
                assert forall|items: Seq<SyntheticProfile>, rest: Seq<char>|
                    !(#[trigger] splits_at(s@, i as int, enc_profiles(items), rest) && wf_profiles(
                        items,
                    )) by {
                    if splits_at(s@, i as int, enc_profiles(items), rest) && wf_profiles(items) {
                        lemma_peel(s@, i as int, "["@, enc_profiles_body(items), rest);
                        lemma_starts_with(s@, i as int, "["@, enc_profiles_body(items) + rest);
                    }
                }
            }
            return None;
        },
    };
    proof {
        assert forall|items: Seq<SyntheticProfile>, rest: Seq<char>|
            #[trigger] splits_at(s@, i as int, enc_profiles(items), rest) && wf_profiles(
                items,
            ) implies (splits_at(s@, i1 as int, enc_profiles_body(items), rest) && i + enc_profiles(
            items,
        ).len() + rest.len() == s@.len()) by {
            lemma_peel(s@, i as int, "["@, enc_profiles_body(items), rest);
        }
    }
    match expect(s, i1, "]") {
        Some(j) => {
            let q: Vec<SyntheticProfile> = Vec::new();
            proof {
                assert forall|items: Seq<SyntheticProfile>, rest: Seq<char>|
                    #[trigger] splits_at(s@, i as int, enc_profiles(items), rest) && wf_profiles(
                        items,
                    ) implies (profiles_like(q@, items) && j == i + enc_profiles(items).len()) by {
                    if items.len() > 0 {
                        lemma_peel(
                            s@,
                            i1 as int,
                            enc_profile(&items[0]),
                            enc_profiles_rest(items.drop_first()),
                            rest,
                        );
                        lemma_starts_with(
                            s@,
                            i1 as int,
                            enc_profile(&items[0]),
                            enc_profiles_rest(items.drop_first()) + rest,
                        );
                        lemma_peel(
                            s@,
                            i1 as int,
                            "{\"id\":\""@,
                            pr_tail1(&items[0]),
                            enc_profiles_rest(items.drop_first()) + rest,
                        );
                        assert(s@[i1 as int] == '{');
                        assert(s@.subrange(i1 as int, i1 + 1)[0] == s@[i1 as int]);
                        assert(false);
                    }
                }
            }
            Some((q, j))
        },
        None => {
            proof {
                assert forall|items: Seq<SyntheticProfile>, rest: Seq<char>|
                    #[trigger] splits_at(s@, i as int, enc_profiles(items), rest) && wf_profiles(
                        items,
                    ) implies (items.len() > 0 && splits_at(
                    s@,
                    i1 as int,
                    enc_profile(&items[0]),
                    enc_profiles_rest(items.drop_first()) + rest,
                ) && splits_at(
                    s@,
                    i1 + enc_profile(&items[0]).len(),
                    enc_profiles_rest(items.drop_first()),
                    rest,
                ) && wf_profile(&items[0]) && wf_profiles(items.drop_first())) by {
                    if items.len() == 0 {
                        lemma_starts_with(s@, i1 as int, "]"@, rest);
                        assert(false);
                    }
                    lemma_peel(
                        s@,
                        i1 as int,
                        enc_profile(&items[0]),
                        enc_profiles_rest(items.drop_first()),
                        rest,
                    );
                    assert(forall|t: int|
                        0 <= t < items.drop_first().len() ==> #[trigger] items.drop_first()[t]
                            == items[t + 1]);
                }
            }
            let (r0, i2) = match parse_profile(s, i1) {
                Some(x) => x,
                None => {
                    proof {
                        assert forall|items: Seq<SyntheticProfile>, rest: Seq<char>|
                            !(#[trigger] splits_at(s@, i as int, enc_profiles(items), rest)
                                && wf_profiles(items)) by {}
                    }
                    return None;
                },
            };
            let mut acc: Vec<SyntheticProfile> = Vec::new();
            acc.push(r0);
            let res = parse_profiles_rest(s, i2, acc);
            proof {
                assert forall|items: Seq<SyntheticProfile>, rest: Seq<char>|
                    #[trigger] splits_at(s@, i as int, enc_profiles(items), rest) && wf_profiles(
                        items,
                    ) implies (res matches Some((q, j)) && profiles_like(q@, items) && j == i
                    + enc_profiles(items).len()) by {
                    let tail = items.drop_first();
                    assert(profile_like(&r0, &items[0]));
                    assert(i2 == i1 + enc_profile(&items[0]).len());
                    assert(splits_at(s@, i2 as int, enc_profiles_rest(tail), rest));
                    let (q, j) = res.unwrap();
                    assert(q@.len() == 1 + tail.len());
                    assert forall|t: int| 0 <= t < items.len() implies profile_like(
                        &q@[t],
                        &items[t],
                    ) by {
                        if t == 0 {
                            assert(q@.subrange(0, 1)[0] == q@[0]);
                            assert(q@.subrange(0, 1) == acc@);
                        } else {
                            assert(profile_like(&q@[1 + (t - 1)], &tail[t - 1]));
                            assert(tail[t - 1] == items[t]);
                        }
                    }
                }
            }
            res
        },
    }
}



// ---------------------------------------------------------------------------
// The snapshot format: whole texts in, whole values out
// ---------------------------------------------------------------------------

/// Decode one profile from its canonical text. Decoding what
/// [`encode_profile`] produced returns the encoded value.
pub fn decode_profile(s: &str) -> (r: Option<SyntheticProfile>)
    ensures
        forall|p: SyntheticProfile|
            wf_profile(&p) && s@ == #[trigger] enc_profile(&p) ==> (r matches Some(q)
                && profile_like(&q, &p)),
{
    let n = s.unicode_len();
    match parse_profile(s, 0) {
        Some((q, j)) => {
            if j == n {
                proof {
                    assert forall|p: SyntheticProfile|
                        wf_profile(&p) && s@ == #[trigger] enc_profile(&p) implies (profile_like(
                        &q,
                        &p,
                    )) by {
                        assert(s@.skip(0) =~= enc_profile(&p) + Seq::<char>::empty());
                        assert(splits_at(s@, 0, enc_profile(&p), Seq::<char>::empty()));
                    }
                }
                Some(q)
            } else {
                proof {
                    assert forall|p: SyntheticProfile|
                        !(wf_profile(&p) && s@ == #[trigger] enc_profile(&p)) by {
                        if wf_profile(&p) && s@ == enc_profile(&p) {
                            assert(s@.skip(0) =~= enc_profile(&p) + Seq::<char>::empty());
                            assert(splits_at(s@, 0, enc_profile(&p), Seq::<char>::empty()));
                        }
                    }
                }
                None
            }
        },
        None => {
            proof {
                assert forall|p: SyntheticProfile|
                    !(wf_profile(&p) && s@ == #[trigger] enc_profile(&p)) by {
                    if wf_profile(&p) && s@ == enc_profile(&p) {
                        assert(s@.skip(0) =~= enc_profile(&p) + Seq::<char>::empty());
                        assert(splits_at(s@, 0, enc_profile(&p), Seq::<char>::empty()));
                    }
                }
            }
            None
        },
    }
}

/// Decode a snapshot: a JSON array of profiles. Decoding what
/// [`encode_profiles`] produced returns the encoded pool.
pub fn decode_profiles(s: &str) -> (r: Option<Vec<SyntheticProfile>>)
    ensures
        forall|ps: Seq<SyntheticProfile>|
            wf_profiles(ps) && s@ == #[trigger] enc_profiles(ps) ==> (r matches Some(q)
                && profiles_like(q@, ps)),
{
    let n = s.unicode_len();
    match parse_profiles(s, 0) {
        Some((q, j)) => {
            if j == n {
                proof {
                    assert forall|ps: Seq<SyntheticProfile>|
                        wf_profiles(ps) && s@ == #[trigger] enc_profiles(ps) implies (
                    profiles_like(q@, ps)) by {
                        assert(s@.skip(0) =~= enc_profiles(ps) + Seq::<char>::empty());
                        assert(splits_at(s@, 0, enc_profiles(ps), Seq::<char>::empty()));
                    }
                }
                Some(q)
            } else {
                proof {
                    assert forall|ps: Seq<SyntheticProfile>|
                        !(wf_profiles(ps) && s@ == #[trigger] enc_profiles(ps)) by {
                        if wf_profiles(ps) && s@ == enc_profiles(ps) {
                            assert(s@.skip(0) =~= enc_profiles(ps) + Seq::<char>::empty());
                            assert(splits_at(s@, 0, enc_profiles(ps), Seq::<char>::empty()));
                        }
                    }
                }
                None
            }
        },
        None => {
            proof {
                assert forall|ps: Seq<SyntheticProfile>|
                    !(wf_profiles(ps) && s@ == #[trigger] enc_profiles(ps)) by {
                    if wf_profiles(ps) && s@ == enc_profiles(ps) {
                        assert(s@.skip(0) =~= enc_profiles(ps) + Seq::<char>::empty());
                        assert(splits_at(s@, 0, enc_profiles(ps), Seq::<char>::empty()));
                    }
                }
            }
            None
        },
    }
}

// ---------------------------------------------------------------------------
// The encoding depends only on the values
// ---------------------------------------------------------------------------

/// Metadata records with the same values render to the same text.
proof fn lemma_enc_metadata_like(a: &ProfileMetadata, b: &ProfileMetadata)
    requires
        metadata_like(a, b),
    ensures
        enc_metadata(a) == enc_metadata(b),
{
    assert(md_tail15(a) == md_tail15(b));
    assert(md_tail14(a) == md_tail14(b));
    assert(md_tail13(a) == md_tail13(b));
    assert(md_tail12(a) == md_tail12(b));
    assert(md_tail11(a) == md_tail11(b));
    assert(md_tail10(a) == md_tail10(b));
    assert(md_tail9(a) == md_tail9(b));
    assert(md_tail8(a) == md_tail8(b));
    assert(md_tail7(a) == md_tail7(b));
    assert(md_tail6(a) == md_tail6(b));
    assert(md_tail5(a) == md_tail5(b));
    assert(md_tail4(a) == md_tail4(b));
    assert(md_tail3(a) == md_tail3(b));
    assert(md_tail2(a) == md_tail2(b));
    assert(md_tail1(a) == md_tail1(b));
}

/// Fingerprints with the same values render to the same text.
proof fn lemma_enc_fingerprint_like(a: &BrowserFingerprint, b: &BrowserFingerprint)
    requires
        fingerprint_like(a, b),
    ensures
        enc_fingerprint(a) == enc_fingerprint(b),
{
    assert(fp_tail15(a) == fp_tail15(b));
    assert(fp_tail14(a) == fp_tail14(b));
    assert(fp_tail13(a) == fp_tail13(b));
    assert(fp_tail12(a) == fp_tail12(b));
    assert(fp_tail11(a) == fp_tail11(b));
    assert(fp_tail10(a) == fp_tail10(b));
    assert(fp_tail9(a) == fp_tail9(b));
    assert(fp_tail8(a) == fp_tail8(b));
    assert(fp_tail7(a) == fp_tail7(b));
    assert(fp_tail6(a) == fp_tail6(b));
    assert(fp_tail5(a) == fp_tail5(b));
    assert(fp_tail4(a) == fp_tail4(b));
    assert(fp_tail3(a) == fp_tail3(b));
    assert(fp_tail2(a) == fp_tail2(b));
    assert(fp_tail1(a) == fp_tail1(b));
}

/// Visit records with the same values render to the same text.
proof fn lemma_enc_record_like(a: &VisitRecord, b: &VisitRecord)
    requires
        record_like(a, b),
    ensures
        enc_record(a) == enc_record(b),
{
    assert(rec_tail9(a) == rec_tail9(b));
    assert(rec_tail8(a) == rec_tail8(b));
    assert(rec_tail7(a) == rec_tail7(b));
    assert(rec_tail6(a) == rec_tail6(b));
    assert(rec_tail5(a) == rec_tail5(b));
    assert(rec_tail4(a) == rec_tail4(b));
    assert(rec_tail3(a) == rec_tail3(b));
    assert(rec_tail2(a) == rec_tail2(b));
    assert(rec_tail1(a) == rec_tail1(b));
}

/// Record sequences with the same values render to the same array tail.
proof fn lemma_enc_records_rest_like(x: Seq<VisitRecord>, y: Seq<VisitRecord>)
    requires
        x.len() == y.len(),
        forall|t: int| 0 <= t < x.len() ==> record_like(&x[t], &y[t]),
    ensures
        enc_records_rest(x) == enc_records_rest(y),
    decreases x.len(),
{
    if x.len() == 0 {
    } else {
        lemma_enc_record_like(&x[0], &y[0]);
        assert(forall|t: int|
            0 <= t < x.drop_first().len() ==> #[trigger] x.drop_first()[t] == x[t + 1]);
        assert(forall|t: int|
            0 <= t < y.drop_first().len() ==> #[trigger] y.drop_first()[t] == y[t + 1]);
        lemma_enc_records_rest_like(x.drop_first(), y.drop_first());
    }
}

/// Record sequences with the same values render to the same array.
proof fn lemma_enc_records_like(x: Seq<VisitRecord>, y: Seq<VisitRecord>)
    requires
        x.len() == y.len(),
        forall|t: int| 0 <= t < x.len() ==> record_like(&x[t], &y[t]),
    ensures
        enc_records(x) == enc_records(y),
{
    if x.len() == 0 {
    } else {
        lemma_enc_record_like(&x[0], &y[0]);
        assert(forall|t: int|
            0 <= t < x.drop_first().len() ==> #[trigger] x.drop_first()[t] == x[t + 1]);
        assert(forall|t: int|
            0 <= t < y.drop_first().len() ==> #[trigger] y.drop_first()[t] == y[t + 1]);
        lemma_enc_records_rest_like(x.drop_first(), y.drop_first());
    }
}

/// Profiles with the same values render to the same text: together with
/// the completeness of [`decode_profile`], decoding an encoded profile and
/// re-encoding it reproduces the text byte for byte.
pub proof fn lemma_encode_like(a: &SyntheticProfile, b: &SyntheticProfile)
    requires
        profile_like(a, b),
    ensures
        enc_profile(a) == enc_profile(b),
{
    lemma_enc_metadata_like(&a.metadata, &b.metadata);
    lemma_enc_fingerprint_like(&a.fingerprint, &b.fingerprint);
    lemma_enc_records_like(a.visit_history@, b.visit_history@);
    assert(pr_tail13(a) == pr_tail13(b));
    assert(pr_tail12(a) == pr_tail12(b));
    assert(pr_tail11(a) == pr_tail11(b));
    assert(pr_tail10(a) == pr_tail10(b));
    assert(pr_tail9(a) == pr_tail9(b));
    assert(pr_tail8(a) == pr_tail8(b));
    assert(pr_tail7(a) == pr_tail7(b));
    assert(pr_tail6(a) == pr_tail6(b));
    assert(pr_tail5(a) == pr_tail5(b));
    assert(pr_tail4(a) == pr_tail4(b));
    assert(pr_tail3(a) == pr_tail3(b));
    assert(pr_tail2(a) == pr_tail2(b));
    assert(pr_tail1(a) == pr_tail1(b));
}

} // verus!
