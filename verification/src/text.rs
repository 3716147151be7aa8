//! Text primitives shared across the library: decimal rendering, string
//! equality and substring search, and ASCII case folding.

use vstd::prelude::*;

verus! {

// ---------------------------------------------------------------------------
// Decimal digits
// ---------------------------------------------------------------------------

/// True of the ten decimal digit characters.
pub open spec fn is_dec_digit(c: char) -> bool {
    48 <= c as u32 && c as u32 <= 57
}

/// Numeric value of a decimal digit character.
pub open spec fn digit_val(c: char) -> nat {
    ((c as u32) - 48) as nat
}

/// The digit character of a value below ten.
pub open spec fn spec_digit_char(d: nat) -> char {
    if d == 0 {
        '0'
    } else if d == 1 {
        '1'
    } else if d == 2 {
        '2'
    } else if d == 3 {
        '3'
    } else if d == 4 {
        '4'
    } else if d == 5 {
        '5'
    } else if d == 6 {
        '6'
    } else if d == 7 {
        '7'
    } else if d == 8 {
        '8'
    } else {
        '9'
    }
}

/// Decimal rendering of a natural number, most significant digit first.
pub open spec fn spec_dec_u64(v: nat) -> Seq<char>
    decreases v,
{
    if v < 10 {
        seq![spec_digit_char(v)]
    } else {
        spec_dec_u64(v / 10).push(spec_digit_char(v % 10))
    }
}

/// Decimal rendering of an integer, with a leading minus sign when negative.
pub open spec fn spec_dec_i64(v: int) -> Seq<char> {
    if v < 0 {
        seq!['-'] + spec_dec_u64((-v) as nat)
    } else {
        spec_dec_u64(v as nat)
    }
}

/// Value of a digit sequence read most significant digit first.
pub open spec fn dec_val(s: Seq<char>) -> nat
    decreases s.len(),
{
    if s.len() == 0 {
        0
    } else {
        dec_val(s.drop_last()) * 10 + digit_val(s.last())
    }
}

/// A decimal rendering consists of digits, is never empty, never starts
/// with a zero unless the value is zero, and reads back to its value.
pub proof fn lemma_dec_u64_props(v: nat)
    ensures
        spec_dec_u64(v).len() >= 1,
        forall|i: int| 0 <= i < spec_dec_u64(v).len() ==> is_dec_digit(#[trigger] spec_dec_u64(v)[i]),
        dec_val(spec_dec_u64(v)) == v,
        v > 0 ==> spec_dec_u64(v)[0] != '0',
    decreases v,
{
    if v < 10 {
        let s = seq![spec_digit_char(v)];
        assert(spec_dec_u64(v) =~= s);
        assert(digit_val(spec_digit_char(v)) == v);
        assert(s.drop_last() =~= Seq::<char>::empty());
        assert(dec_val(Seq::<char>::empty()) == 0);
        assert(dec_val(s) == digit_val(spec_digit_char(v)));
    } else {
        lemma_dec_u64_props(v / 10);
        let pre = spec_dec_u64(v / 10);
        let whole = spec_dec_u64(v);
        assert(whole == pre.push(spec_digit_char(v % 10)));
        assert(whole.drop_last() =~= pre);
        assert(whole.last() == spec_digit_char(v % 10));
        assert(digit_val(spec_digit_char(v % 10)) == v % 10);
        assert(dec_val(whole) == dec_val(pre) * 10 + v % 10);
        assert(dec_val(pre) == v / 10);
        assert(v / 10 * 10 + v % 10 == v);
        assert(whole[0] == pre[0]);
        assert(v / 10 > 0);
    }
}

/// A one-character string slice holding the digit of a value below ten.
pub fn digit_str(d: u64) -> (s: &'static str)
    requires
        d < 10,
    ensures
        s@ =~= seq![spec_digit_char(d as nat)],
{
    proof {
        reveal_strlit("0");
        reveal_strlit("1");
        reveal_strlit("2");
        reveal_strlit("3");
        reveal_strlit("4");
        reveal_strlit("5");
        reveal_strlit("6");
        reveal_strlit("7");
        reveal_strlit("8");
        reveal_strlit("9");
    }
    match d {
        0 => "0",
        1 => "1",
        2 => "2",
        3 => "3",
        4 => "4",
        5 => "5",
        6 => "6",
        7 => "7",
        8 => "8",
        _ => "9",
    }
}

/// Render a number in decimal.
pub fn u64_to_string(v: u64) -> (s: String)
    ensures
        s@ == spec_dec_u64(v as nat),
    decreases v,
{
    if v < 10 {
        let s = String::from_str(digit_str(v));
        proof {
            assert(s@ =~= spec_dec_u64(v as nat));
        }
        s
    } else {
        let mut s = u64_to_string(v / 10);
        s.append(digit_str(v % 10));
        proof {
            assert(s@ =~= spec_dec_u64(v as nat));
        }
        s
    }
}

/// Render a signed number in decimal.
pub fn i64_to_string(v: i64) -> (s: String)
    ensures
        s@ == spec_dec_i64(v as int),
{
    if v < 0 {
        let mag: u64 = ((-(v + 1)) as u64) + 1;
        proof {
            assert(mag as int == -(v as int));
        }
        let mut s = String::new();
        proof {
            reveal_strlit("-");
        }
        s.append("-");
        let digits = u64_to_string(mag);
        s.append(digits.as_str());
        proof {
            assert(s@ =~= spec_dec_i64(v as int));
        }
        s
    } else {
        let s = u64_to_string(v as u64);
        s
    }
}

// ---------------------------------------------------------------------------
// String equality and substring search
// ---------------------------------------------------------------------------

/// Character-wise equality of two string slices.
pub fn str_eq(a: &str, b: &str) -> (r: bool)
    ensures
        r == (a@ == b@),
{
    let la = a.unicode_len();
    let lb = b.unicode_len();
    if la != lb {
        return false;
    }
    let mut i: usize = 0;
    while i < la
        invariant
            la == a@.len(),
            la == b@.len(),
            i <= la,
            forall|k: int| 0 <= k < i ==> a@[k] == b@[k],
        decreases la - i,
    {
        if a.get_char(i) != b.get_char(i) {
            return false;
        }
        i += 1;
    }
    proof {
        assert(a@ =~= b@);
    }
    true
}

/// The needle occurs in the haystack starting at position `i`.
pub open spec fn seq_contains_at<T>(hay: Seq<T>, needle: Seq<T>, i: int) -> bool {
    0 <= i && i + needle.len() <= hay.len() && hay.subrange(i, i + needle.len()) == needle
}

/// The needle occurs somewhere in the haystack.
pub open spec fn seq_contains<T>(hay: Seq<T>, needle: Seq<T>) -> bool {
    exists|i: int| seq_contains_at(hay, needle, i)
}

/// Compare the needle against the haystack at one position.
fn str_matches_at(hay: &str, needle: &str, i: usize, hl: usize, nl: usize) -> (r: bool)
    requires
        hl == hay@.len(),
        nl == needle@.len(),
        i + nl <= hl,
    ensures
        r == seq_contains_at(hay@, needle@, i as int),
{
    let mut k: usize = 0;
    while k < nl
        invariant
            hl == hay@.len(),
            nl == needle@.len(),
            i + nl <= hl,
            k <= nl,
            forall|j: int| 0 <= j < k ==> hay@[i + j] == needle@[j],
        decreases nl - k,
    {
        if hay.get_char(i + k) != needle.get_char(k) {
            proof {
                assert(hay@.subrange(i as int, i + nl) != needle@) by {
                    assert(hay@.subrange(i as int, i + nl)[k as int] != needle@[k as int]);
                }
            }
            return false;
        }
        k += 1;
    }
    proof {
        assert(hay@.subrange(i as int, i + nl) =~= needle@);
    }
    true
}

/// Substring search.
pub fn str_contains(hay: &str, needle: &str) -> (r: bool)
    ensures
        r == seq_contains(hay@, needle@),
{
    let hl = hay.unicode_len();
    let nl = needle.unicode_len();
    if nl > hl {
        proof {
            assert(forall|i: int| !seq_contains_at(hay@, needle@, i));
        }
        return false;
    }
    let end = hl - nl;
    let mut i: usize = 0;
    loop
        invariant
            hl == hay@.len(),
            nl == needle@.len(),
            nl <= hl,
            end == hl - nl,
            i <= end,
            forall|j: int| 0 <= j < i ==> !seq_contains_at(hay@, needle@, j),
        ensures
            forall|j: int| 0 <= j <= end ==> !seq_contains_at(hay@, needle@, j),
        decreases end - i,
    {
        if str_matches_at(hay, needle, i, hl, nl) {
            return true;
        }
        if i == end {
            break ;
        }
        i += 1;
    }
    proof {
        assert(forall|j: int| !seq_contains_at(hay@, needle@, j));
    }
    false
}

// ---------------------------------------------------------------------------
// ASCII case folding
// ---------------------------------------------------------------------------

/// ASCII lower-casing of one character; other characters are unchanged.
pub open spec fn lower_char(c: char) -> char {
    if 65 <= c as u32 && c as u32 <= 90 {
        (((c as u32) + 32) as u8) as char
    } else {
        c
    }
}

/// ASCII lower-casing of a character sequence.
pub open spec fn lower_seq(s: Seq<char>) -> Seq<char> {
    s.map_values(|c: char| lower_char(c))
}

/// ASCII lower-casing of one character.
pub fn lower_char_exec(c: char) -> (r: char)
    ensures
        r == lower_char(c),
{
    let u = c as u32;
    if 65 <= u && u <= 90 {
        ((u + 32) as u8) as char
    } else {
        c
    }
}

/// Compare the needle against the haystack at one position, ignoring ASCII case.
fn str_matches_at_ci(hay: &str, needle: &str, i: usize, hl: usize, nl: usize) -> (r: bool)
    requires
        hl == hay@.len(),
        nl == needle@.len(),
        i + nl <= hl,
    ensures
        r == seq_contains_at(lower_seq(hay@), lower_seq(needle@), i as int),
{
    let mut k: usize = 0;
    while k < nl
        invariant
            hl == hay@.len(),
            nl == needle@.len(),
            i + nl <= hl,
            k <= nl,
            forall|j: int| 0 <= j < k ==> lower_seq(hay@)[i + j] == lower_seq(needle@)[j],
        decreases nl - k,
    {
        if lower_char_exec(hay.get_char(i + k)) != lower_char_exec(needle.get_char(k)) {
            proof {
                assert(lower_seq(hay@)[i + k] != lower_seq(needle@)[k as int]);
                assert(lower_seq(hay@).subrange(i as int, i + nl) != lower_seq(needle@)) by {
                    assert(lower_seq(hay@).subrange(i as int, i + nl)[k as int] != lower_seq(
                        needle@,
                    )[k as int]);
                }
            }
            return false;
        }
        k += 1;
    }
    proof {
        assert(lower_seq(hay@).subrange(i as int, i + nl) =~= lower_seq(needle@));
    }
    true
}

/// Substring search ignoring ASCII case.
pub fn str_contains_ci(hay: &str, needle: &str) -> (r: bool)
    ensures
        r == seq_contains(lower_seq(hay@), lower_seq(needle@)),
{
    let hl = hay.unicode_len();
    let nl = needle.unicode_len();
    if nl > hl {
        proof {
            assert(forall|i: int| !seq_contains_at(lower_seq(hay@), lower_seq(needle@), i));
        }
        return false;
    }
    let end = hl - nl;
    let mut i: usize = 0;
    loop
        invariant
            hl == hay@.len(),
            nl == needle@.len(),
            nl <= hl,
            end == hl - nl,
            i <= end,
            forall|j: int| 0 <= j < i ==> !seq_contains_at(lower_seq(hay@), lower_seq(needle@), j),
        ensures
            forall|j: int| 0 <= j <= end ==> !seq_contains_at(lower_seq(hay@), lower_seq(needle@), j),
        decreases end - i,
    {
        if str_matches_at_ci(hay, needle, i, hl, nl) {
            return true;
        }
        if i == end {
            break ;
        }
        i += 1;
    }
    proof {
        assert(forall|j: int| !seq_contains_at(lower_seq(hay@), lower_seq(needle@), j));
    }
    false
}

} // verus!
