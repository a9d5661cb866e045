//! Verified parsing of the string-encoded scalars that telemetry
//! messages carry: decimal integers, booleans, and the decimal
//! floating-point literal grammar, plus exact and ASCII-case-insensitive
//! keyword matching.

use vstd::prelude::*;

verus! {

/// Whether `c` is a decimal digit.
pub open spec fn is_digit(c: char) -> bool {
    48 <= c as u32 && c as u32 <= 57
}

/// The code point of `c` with an ASCII upper-case letter folded to its
/// lower-case counterpart.
pub open spec fn lower32(c: char) -> u32 {
    if 65 <= c as u32 && c as u32 <= 90 {
        (c as u32 + 32) as u32
    } else {
        c as u32
    }
}

/// ASCII-case-insensitive equality of two character sequences.
pub open spec fn ci_eq(a: Seq<char>, b: Seq<char>) -> bool {
    a.len() == b.len() && forall|i: int| 0 <= i < a.len() ==> lower32(a[i]) == lower32(b[i])
}

/// Every character is a decimal digit (an empty sequence passes).
pub open spec fn digits_opt(s: Seq<char>) -> bool {
    forall|i: int| 0 <= i < s.len() ==> is_digit(#[trigger] s[i])
}

/// A non-empty run of decimal digits.
pub open spec fn all_digits(s: Seq<char>) -> bool {
    s.len() > 0 && digits_opt(s)
}

/// The numeric value of a digit run, most significant digit first.
pub open spec fn digits_val(s: Seq<char>) -> int
    decreases s.len(),
{
    if s.len() == 0 {
        0
    } else {
        digits_val(s.drop_last()) * 10 + (s.last() as u32 - 48)
    }
}

pub proof fn lemma_digits_val_nonneg(s: Seq<char>)
    requires
        digits_opt(s),
    ensures
        digits_val(s) >= 0,
    decreases s.len(),
{
    if s.len() > 0 {
        assert(digits_opt(s.drop_last()));
        lemma_digits_val_nonneg(s.drop_last());
    }
}

/// The value of a digit run is at least the value of any of its
/// prefixes.
pub proof fn lemma_digits_val_prefix_le(s: Seq<char>, j: int)
    requires
        digits_opt(s),
        0 <= j <= s.len(),
    ensures
        digits_val(s.take(j)) <= digits_val(s),
    decreases s.len() - j,
{
    if j < s.len() {
        lemma_digits_val_prefix_le(s, j + 1);
        assert(s.take(j + 1).drop_last() =~= s.take(j));
        assert(digits_opt(s.take(j)));
        lemma_digits_val_nonneg(s.take(j));
        assert(digits_val(s.take(j + 1)) == digits_val(s.take(j)) * 10 + (s[j] as u32 - 48));
    } else {
        assert(s.take(j) =~= s);
    }
}

/// Exact equality of a string with a keyword.
pub fn str_eq(a: &str, b: &str) -> (r: bool)
    ensures
        r == (a@ == b@),
{
    let alen = a.unicode_len();
    let blen = b.unicode_len();
    if alen != blen {
        proof {
            assert(a@ != b@) by {
                if a@ == b@ {
                    assert(a@.len() == b@.len());
                }
            }
        }
        return false;
    }
    let mut i: usize = 0;
    while i < alen
        invariant
            0 <= i <= alen,
            alen as nat == a@.len(),
            alen as nat == b@.len(),
            forall|j: int| 0 <= j < i ==> a@[j] == b@[j],
        decreases alen - i,
    {
        if a.get_char(i) != b.get_char(i) {
            proof {
                assert(a@ != b@) by {
                    if a@ == b@ {
                        assert(a@[i as int] == b@[i as int]);
                    }
                }
            }
            return false;
        }
        i += 1;
    }
    proof {
        assert(a@ =~= b@);
    }
    true
}

fn lower_of(c: char) -> (r: u32)
    ensures
        r == lower32(c),
{
    let u = c as u32;
    if 65 <= u && u <= 90 {
        u + 32
    } else {
        u
    }
}

/// ASCII-case-insensitive equality of a string with a keyword.
pub fn str_eq_ci(a: &str, b: &str) -> (r: bool)
    ensures
        r == ci_eq(a@, b@),
{
    let alen = a.unicode_len();
    let blen = b.unicode_len();
    if alen != blen {
        return false;
    }
    let mut i: usize = 0;
    while i < alen
        invariant
            0 <= i <= alen,
            alen as nat == a@.len(),
            alen as nat == b@.len(),
            forall|j: int| 0 <= j < i ==> lower32(a@[j]) == lower32(b@[j]),
        decreases alen - i,
    {
        if lower_of(a.get_char(i)) != lower_of(b.get_char(i)) {
            return false;
        }
        i += 1;
    }
    true
}

/// The digits of an unsigned decimal literal: one optional leading
/// plus sign, then the rest.
pub open spec fn unsigned_body(s: Seq<char>) -> Seq<char> {
    if s.len() > 0 && s[0] == '+' {
        s.drop_first()
    } else {
        s
    }
}

/// What parsing a string as an 8-bit unsigned decimal integer yields:
/// an optional plus sign, then a non-empty digit run whose value fits.
pub open spec fn spec_parse_u8(s: Seq<char>) -> Option<u8> {
    let d = unsigned_body(s);
    if all_digits(d) && digits_val(d) <= 255 {
        Some(digits_val(d) as u8)
    } else {
        None
    }
}

/// Parse an 8-bit unsigned decimal integer.
#[verifier::loop_isolation(false)]
pub fn parse_u8(s: &str) -> (r: Option<u8>)
    ensures
        r == spec_parse_u8(s@),
{
    let n = s.unicode_len();
    let start: usize = if n > 0 && s.get_char(0) == '+' {
        1
    } else {
        0
    };
    let ghost d = unsigned_body(s@);
    proof {
        assert(d =~= s@.skip(start as int));
    }
    if start >= n {
        return None;
    }
    let mut acc: u32 = 0;
    let mut i: usize = start;
    while i < n
        invariant
            start <= i <= n,
            acc <= 255,
            digits_opt(d.take(i - start)),
            acc == digits_val(d.take(i - start)),
        decreases n - i,
    {
        let c = s.get_char(i);
        let u = c as u32;
        if u < 48 || u > 57 {
            assert(!all_digits(d)) by {
                assert(d[i - start] == s@[i as int]);
            }
            return None;
        }
        let dv = u - 48;
        proof {
            assert(d.take(i - start + 1).drop_last() =~= d.take(i - start));
            assert(d.take(i - start + 1).last() == d[i - start]);
            assert(d[i - start] == s@[i as int]);
        }
        if acc > 25 || (acc == 25 && dv > 5) {
            proof {
                if all_digits(d) {
                    lemma_digits_val_prefix_le(d, i - start + 1);
                }
            }
            return None;
        }
        acc = acc * 10 + dv;
        i += 1;
    }
    proof {
        assert(d.take(n - start) =~= d);
    }
    Some(acc as u8)
}

/// What parsing a string as a 64-bit signed decimal integer yields: an
/// optional sign, then a non-empty digit run whose value fits.
pub open spec fn spec_parse_i64(s: Seq<char>) -> Option<i64> {
    let neg = s.len() > 0 && s[0] == '-';
    let d = if s.len() > 0 && (s[0] == '+' || s[0] == '-') {
        s.drop_first()
    } else {
        s
    };
    if all_digits(d) {
        let v = digits_val(d);
        if neg && v <= 0x8000_0000_0000_0000 {
            Some((-v) as i64)
        } else if !neg && v <= 0x7fff_ffff_ffff_ffff {
            Some(v as i64)
        } else {
            None
        }
    } else {
        None
    }
}

/// Parse a 64-bit signed decimal integer.
#[verifier::loop_isolation(false)]
pub fn parse_i64(s: &str) -> (r: Option<i64>)
    ensures
        r == spec_parse_i64(s@),
{
    let n = s.unicode_len();
    let mut neg = false;
    let mut start: usize = 0;
    if n > 0 {
        let c0 = s.get_char(0);
        if c0 == '-' {
            neg = true;
            start = 1;
        } else if c0 == '+' {
            start = 1;
        }
    }
    let ghost d = if s@.len() > 0 && (s@[0] == '+' || s@[0] == '-') {
        s@.drop_first()
    } else {
        s@
    };
    proof {
        assert(d =~= s@.skip(start as int));
    }
    if start >= n {
        return None;
    }
    let limit: u128 = if neg {
        0x8000_0000_0000_0000
    } else {
        0x7fff_ffff_ffff_ffff
    };
    let mut acc: u128 = 0;
    let mut i: usize = start;
    while i < n
        invariant
            start <= i <= n,
            acc <= limit,
            digits_opt(d.take(i - start)),
            acc == digits_val(d.take(i - start)),
        decreases n - i,
    {
        let c = s.get_char(i);
        let u = c as u32;
        if u < 48 || u > 57 {
            assert(!all_digits(d)) by {
                assert(d[i - start] == s@[i as int]);
            }
            return None;
        }
        let dv = (u - 48) as u128;
        proof {
            assert(d.take(i - start + 1).drop_last() =~= d.take(i - start));
            assert(d.take(i - start + 1).last() == d[i - start]);
            assert(d[i - start] == s@[i as int]);
        }
        let next = acc * 10 + dv;
        if next > limit {
            proof {
                if all_digits(d) {
                    lemma_digits_val_prefix_le(d, i - start + 1);
                }
            }
            return None;
        }
        acc = next;
        i += 1;
    }
    proof {
        assert(d.take(n - start) =~= d);
    }
    if neg {
        let v = -(acc as i128);
        Some(v as i64)
    } else {
        Some(acc as i64)
    }
}

/// What parsing a string as a boolean yields: exactly `true` or
/// `false`.
pub open spec fn spec_parse_bool(s: Seq<char>) -> Option<bool> {
    if s == "true"@ {
        Some(true)
    } else if s == "false"@ {
        Some(false)
    } else {
        None
    }
}

/// Parse a boolean.
pub fn parse_bool(s: &str) -> (r: Option<bool>)
    ensures
        r == spec_parse_bool(s@),
{
    if str_eq(s, "true") {
        Some(true)
    } else if str_eq(s, "false") {
        Some(false)
    } else {
        None
    }
}

/// The index of the first occurrence of `c`, or the length if there is
/// none.
pub open spec fn first_cidx(s: Seq<char>, c: char) -> int
    decreases s.len(),
{
    if s.len() == 0 {
        0
    } else if s[0] == c {
        0
    } else {
        1 + first_cidx(s.drop_first(), c)
    }
}

pub proof fn lemma_first_cidx_bounds(s: Seq<char>, c: char)
    ensures
        0 <= first_cidx(s, c) <= s.len(),
        forall|j: int| 0 <= j < first_cidx(s, c) ==> s[j] != c,
        first_cidx(s, c) < s.len() ==> s[first_cidx(s, c)] == c,
    decreases s.len(),
{
    if s.len() != 0 && s[0] != c {
        lemma_first_cidx_bounds(s.drop_first(), c);
        assert(forall|j: int| 1 <= j < first_cidx(s, c) ==> s[j] == s.drop_first()[j - 1]);
    }
}

pub proof fn lemma_first_cidx_of(s: Seq<char>, c: char, i: int)
    requires
        0 <= i <= s.len(),
        forall|j: int| 0 <= j < i ==> s[j] != c,
        i < s.len() ==> s[i] == c,
    ensures
        first_cidx(s, c) == i,
    decreases s.len(),
{
    if s.len() != 0 && s[0] != c {
        assert(forall|j: int| 0 <= j < i - 1 ==> s.drop_first()[j] == s[j + 1] && s[j + 1] != c);
        lemma_first_cidx_of(s.drop_first(), c, i - 1);
    }
}

/// Whether `c` begins an exponent part.
pub open spec fn is_exp_char(c: char) -> bool {
    c == 'e' || c == 'E'
}

/// The index of the first exponent marker, or the length if there is
/// none.
pub open spec fn first_exp_idx(s: Seq<char>) -> int {
    if first_cidx(s, 'e') <= first_cidx(s, 'E') {
        first_cidx(s, 'e')
    } else {
        first_cidx(s, 'E')
    }
}

/// A well-formed mantissa: digits with at most one decimal point and
/// at least one digit overall.
pub open spec fn mantissa_ok(m: Seq<char>) -> bool {
    let d = first_cidx(m, '.');
    if d < m.len() {
        let left = m.take(d);
        let right = m.skip(d + 1);
        digits_opt(left) && digits_opt(right) && left.len() + right.len() > 0 && first_cidx(
            right,
            '.',
        ) == right.len()
    } else {
        all_digits(m)
    }
}

/// A well-formed exponent: an optional sign, then a non-empty digit
/// run.
pub open spec fn exp_ok(x: Seq<char>) -> bool {
    all_digits(
        if x.len() > 0 && (x[0] == '+' || x[0] == '-') {
            x.drop_first()
        } else {
            x
        },
    )
}

/// A well-formed unsigned number: a mantissa, optionally followed by
/// an exponent marker and a well-formed exponent.
pub open spec fn number_ok(t: Seq<char>) -> bool {
    let e = first_exp_idx(t);
    if e < t.len() {
        mantissa_ok(t.take(e)) && exp_ok(t.skip(e + 1))
    } else {
        mantissa_ok(t)
    }
}

/// The decimal floating-point literal grammar: an optional sign, then
/// one of the keywords `inf`, `infinity` or `nan` (matched
/// case-insensitively) or a well-formed number.
pub open spec fn is_float_text(s: Seq<char>) -> bool {
    let t = if s.len() > 0 && (s[0] == '+' || s[0] == '-') {
        s.drop_first()
    } else {
        s
    };
    ci_eq(t, "inf"@) || ci_eq(t, "infinity"@) || ci_eq(t, "nan"@) || number_ok(t)
}

/// Every character in `[from, to)` of `s` is a decimal digit.
#[verifier::loop_isolation(false)]
fn check_digits(s: &str, from: usize, to: usize) -> (r: bool)
    requires
        from <= to <= s@.len(),
    ensures
        r == digits_opt(s@.subrange(from as int, to as int)),
{
    let mut i: usize = from;
    while i < to
        invariant
            from <= i <= to,
            forall|j: int| from <= j < i ==> is_digit(#[trigger] s@[j]),
        decreases to - i,
    {
        let u = s.get_char(i) as u32;
        if u < 48 || u > 57 {
            assert(!digits_opt(s@.subrange(from as int, to as int))) by {
                assert(s@.subrange(from as int, to as int)[i - from] == s@[i as int]);
            }
            return false;
        }
        i += 1;
    }
    assert forall|j: int|
        0 <= j < s@.subrange(from as int, to as int).len() implies is_digit(
        #[trigger] s@.subrange(from as int, to as int)[j],
    ) by {
        assert(s@.subrange(from as int, to as int)[j] == s@[j + from]);
    }
    true
}

/// The first index at or after `from` holding `c`, or the length.
#[verifier::loop_isolation(false)]
fn find_char(s: &str, from: usize, c: char) -> (r: usize)
    requires
        from <= s@.len(),
    ensures
        r == from + first_cidx(s@.skip(from as int), c),
{
    let n = s.unicode_len();
    let mut i: usize = from;
    while i < n
        invariant
            from <= i <= n,
            forall|j: int| from <= j < i ==> s@[j] != c,
        decreases n - i,
    {
        if s.get_char(i) == c {
            proof {
                assert(forall|j: int|
                    0 <= j < i - from ==> s@.skip(from as int)[j] == s@[j + from] && s@[j + from]
                        != c);
                lemma_first_cidx_of(s@.skip(from as int), c, i - from);
            }
            return i;
        }
        i += 1;
    }
    proof {
        assert(forall|j: int|
            0 <= j < n - from ==> s@.skip(from as int)[j] == s@[j + from] && s@[j + from] != c);
        lemma_first_cidx_of(s@.skip(from as int), c, n - from);
    }
    n
}

/// The first index at or after `from` holding an exponent marker, or
/// the length.
fn find_exp(s: &str, from: usize) -> (r: usize)
    requires
        from <= s@.len(),
    ensures
        r == from + first_exp_idx(s@.skip(from as int)),
{
    let e_lo = find_char(s, from, 'e');
    let e_hi = find_char(s, from, 'E');
    if e_lo <= e_hi {
        e_lo
    } else {
        e_hi
    }
}

/// Whether `s` is a well-formed decimal floating-point literal.
#[verifier::loop_isolation(false)]
pub fn check_float_text(s: &str) -> (r: bool)
    ensures
        r == is_float_text(s@),
{
    let n = s.unicode_len();
    let start: usize = if n > 0 {
        let c0 = s.get_char(0);
        if c0 == '+' || c0 == '-' {
            1
        } else {
            0
        }
    } else {
        0
    };
    let t = s.substring_char(start, n);
    let ghost spec_t = if s@.len() > 0 && (s@[0] == '+' || s@[0] == '-') {
        s@.drop_first()
    } else {
        s@
    };
    proof {
        assert(t@ =~= spec_t);
        assert(is_float_text(s@) == (ci_eq(spec_t, "inf"@) || ci_eq(spec_t, "infinity"@) || ci_eq(
            spec_t,
            "nan"@,
        ) || number_ok(spec_t)));
    }
    if str_eq_ci(t, "inf") || str_eq_ci(t, "infinity") || str_eq_ci(t, "nan") {
        return true;
    }
    // the unsigned number, split at the first exponent marker
    let tlen = t.unicode_len();
    let e = find_exp(t, 0);
    proof {
        assert(t@.skip(0) =~= t@);
        lemma_first_cidx_bounds(t@, 'e');
        lemma_first_cidx_bounds(t@, 'E');
    }
    if e < tlen {
        let xfrom = e + 1;
        let xstart: usize = if xfrom < tlen {
            let cx = t.get_char(xfrom);
            if cx == '+' || cx == '-' {
                xfrom + 1
            } else {
                xfrom
            }
        } else {
            xfrom
        };
        let ghost x = t@.skip(e as int + 1);
        let ghost xs = if x.len() > 0 && (x[0] == '+' || x[0] == '-') {
            x.drop_first()
        } else {
            x
        };
        proof {
            if x.len() > 0 {
                assert(x[0] == t@[e as int + 1]);
            }
            assert(xs =~= t@.subrange(xstart as int, tlen as int));
        }
        if xstart >= tlen {
            proof {
                assert(!exp_ok(x));
                assert(!number_ok(t@));
            }
            return false;
        }
        if !check_digits(t, xstart, tlen) {
            proof {
                assert(!all_digits(xs));
                assert(!exp_ok(x));
                assert(!number_ok(t@));
            }
            return false;
        }
        let r = check_mantissa(t, e);
        proof {
            assert(all_digits(xs)) by {
                assert(digits_opt(xs));
                assert(xs.len() > 0);
            }
            assert(exp_ok(x));
        }
        r
    } else {
        check_mantissa(t, tlen)
    }
}

/// Whether `s[..to]` is a well-formed mantissa.
#[verifier::loop_isolation(false)]
fn check_mantissa(s: &str, to: usize) -> (r: bool)
    requires
        to <= s@.len(),
    ensures
        r == mantissa_ok(s@.take(to as int)),
{
    let ghost m = s@.take(to as int);
    let d = find_char(s, 0, '.');
    proof {
        assert(s@.skip(0) =~= s@);
        lemma_first_cidx_bounds(s@, '.');
        if first_cidx(s@, '.') < to {
            assert(forall|j: int| 0 <= j < first_cidx(s@, '.') ==> m[j] == s@[j]);
            lemma_first_cidx_of(m, '.', first_cidx(s@, '.'));
        } else {
            assert(forall|j: int| 0 <= j < m.len() ==> m[j] == s@[j] && m[j] != '.');
            lemma_first_cidx_of(m, '.', to as int);
        }
    }
    if d < to {
        // digits on either side of the single decimal point
        let ghost right = m.skip(d + 1);
        if !check_digits(s, 0, d) {
            proof {
                assert(m.take(d as int) =~= s@.subrange(0, d as int));
            }
            return false;
        }
        if !check_digits(s, d + 1, to) {
            proof {
                assert(right =~= s@.subrange(d as int + 1, to as int));
            }
            return false;
        }
        if d == 0 && d + 1 == to {
            return false;
        }
        let d2 = find_char(s, d + 1, '.');
        proof {
            assert(right =~= s@.skip(d as int + 1).take(to - d - 1));
            assert(m.take(d as int) =~= s@.subrange(0, d as int));
            assert(right =~= s@.subrange(d as int + 1, to as int));
            lemma_first_cidx_bounds(s@.skip(d as int + 1), '.');
            if first_cidx(s@.skip(d as int + 1), '.') < right.len() {
                assert(forall|j: int|
                    0 <= j < first_cidx(s@.skip(d as int + 1), '.') ==> right[j] == s@.skip(
                        d as int + 1,
                    )[j]);
                assert(right[first_cidx(s@.skip(d as int + 1), '.')] == s@.skip(d as int + 1)[
                    first_cidx(s@.skip(d as int + 1), '.')]);
                lemma_first_cidx_of(right, '.', first_cidx(s@.skip(d as int + 1), '.'));
            } else {
                assert(forall|j: int|
                    0 <= j < right.len() ==> right[j] == s@.skip(d as int + 1)[j] && right[j]
                        != '.');
                lemma_first_cidx_of(right, '.', right.len() as int);
            }
        }
        if d2 < to {
            return false;
        }
        true
    } else {
        if to == 0 {
            return false;
        }
        let r = check_digits(s, 0, to);
        proof {
            assert(m =~= s@.subrange(0, to as int));
        }
        r
    }
}

} // verus!
