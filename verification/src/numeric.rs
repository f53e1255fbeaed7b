//! Parsing numeric quantity text into exact values: plain decimals,
//! leading numeric parts with fractions ("1/2 tsp"), and the
//! number / range / free-text split for quantity values.
use vstd::prelude::*;

use crate::key_path::first_index_of;
use crate::quantity::{Amount, AmountModel, Quantity, QuantityModel};
use crate::rational::{frac_div, frac_fits, Rational};

verus! {

/// An ASCII decimal digit.
pub open spec fn is_digit(c: char) -> bool {
    ('0' as u32) <= (c as u32) && (c as u32) <= ('9' as u32)
}

pub open spec fn digit_val(c: char) -> int {
    (c as u32) - ('0' as u32)
}

pub open spec fn all_digits(s: Seq<char>) -> bool {
    forall|i: int| 0 <= i < s.len() ==> is_digit(#[trigger] s[i])
}

/// The number a digit string denotes.
pub open spec fn digits_val(s: Seq<char>) -> int
    decreases s.len(),
{
    if s.len() == 0 {
        0
    } else {
        digits_val(s.drop_last()) * 10 + digit_val(s.last())
    }
}

pub open spec fn pow10(n: nat) -> int
    decreases n,
{
    if n == 0 {
        1
    } else {
        10 * pow10((n - 1) as nat)
    }
}

/// How an unsigned decimal string parses: digits, at most one dot,
/// at least one digit in all. The value is exact: the digits over the
/// power of ten the fraction part calls for.
pub open spec fn parse_decimal(s: Seq<char>) -> Option<(int, int)> {
    let neg = s.len() > 0 && s[0] == '-';
    let body = if neg {
        s.skip(1)
    } else {
        s
    };
    let d = first_index_of(body, '.');
    let sign: int = if neg {
        -1
    } else {
        1
    };
    if d == body.len() {
        if all_digits(body) && body.len() > 0 {
            Some((sign * digits_val(body), 1))
        } else {
            None
        }
    } else {
        let ip = body.take(d);
        let fp = body.skip(d + 1);
        if all_digits(ip) && all_digits(fp) && ip.len() + fp.len() > 0 {
            Some((sign * (digits_val(ip) * pow10(fp.len()) + digits_val(fp)), pow10(fp.len())))
        } else {
            None
        }
    }
}

/// How decimal parsing can come out on a machine: the exact value, or
/// a refusal that tells overflow apart from non-numeric text.
pub enum ParsedDecimal {
    Value(Rational),
    TooBig,
    NotNumber,
}

fn digit_of(c: char) -> (r: Option<u32>)
    ensures
        r matches Some(d) ==> is_digit(c) && d == digit_val(c) && d <= 9,
        r is None ==> !is_digit(c),
{
    let u = c as u32;
    if u >= 48 && u <= 57 {
        Some(u - 48)
    } else {
        None
    }
}

fn parse_digits(s: &str, from: usize, to: usize) -> (r: Option<i64>)
    requires
        from <= to <= s@.len(),
    ensures
        ({
            let part = s@.subrange(from as int, to as int);
            match r {
                Some(v) => all_digits(part) && v == digits_val(part) && v >= 0,
                None => !all_digits(part) || digits_val(part) > i64::MAX,
            }
        }),
{
    let ghost part = s@.subrange(from as int, to as int);
    let mut acc: i64 = 0;
    let mut i: usize = from;
    while i < to
        invariant
            from <= i <= to <= s@.len(),
            part == s@.subrange(from as int, to as int),
            all_digits(s@.subrange(from as int, i as int)),
            acc == digits_val(s@.subrange(from as int, i as int)),
            acc >= 0,
        decreases to - i,
    {
        let c = s.get_char(i);
        let ghost pre = s@.subrange(from as int, i as int);
        match digit_of(c) {
            None => {
                proof {
                    assert(part[i - from] == c);
                }
                return None;
            },
            Some(d) => {
                match acc.checked_mul(10) {
                    None => {
                        proof {
                            assert(s@.subrange(from as int, i + 1).drop_last() =~= pre);
                            assert(s@.subrange(from as int, i + 1).last() == c);
                            assert(s@.subrange(from as int, i + 1) =~= part.take(i - from + 1));
                            assert(acc * 10 > i64::MAX) by (nonlinear_arith)
                                requires
                                    acc >= 0,
                                    !(i64::MIN <= acc * 10 <= i64::MAX),
                            ;
                            assert(digits_val(part.take(i - from + 1)) == acc * 10 + digit_val(c));
                            if all_digits(part) {
                                lemma_digits_grow(part, i - from + 1);
                            }
                        }
                        return None;
                    },
                    Some(a10) => {
                        if a10 > i64::MAX - (d as i64) {
                            proof {
                                assert(s@.subrange(from as int, i + 1).drop_last() =~= pre);
                                assert(s@.subrange(from as int, i + 1).last() == c);
                                assert(s@.subrange(from as int, i + 1) =~= part.take(
                                    i - from + 1,
                                ));
                                assert(digits_val(part.take(i - from + 1)) == acc * 10 + digit_val(
                                    c,
                                ));
                                if all_digits(part) {
                                    lemma_digits_grow(part, i - from + 1);
                                }
                            }
                            return None;
                        }
                        acc = a10 + (d as i64);
                        proof {
                            assert(s@.subrange(from as int, i + 1).drop_last() =~= pre);
                            assert(s@.subrange(from as int, i + 1).last() == c);
                        }
                        i = i + 1;
                    },
                }
            },
        }
    }
    proof {
        assert(s@.subrange(from as int, to as int) =~= part);
    }
    Some(acc)
}

/// A digit string's value only grows along its prefixes.
proof fn lemma_digits_grow(s: Seq<char>, k: int)
    requires
        0 < k <= s.len(),
        all_digits(s.take(k)),
    ensures
        digits_val(s.take(k)) >= 0,
        all_digits(s) ==> digits_val(s) >= digits_val(s.take(k)),
    decreases s.len() - k,
{
    lemma_digits_nonneg(s.take(k));
    if k == s.len() {
        assert(s.take(k) =~= s);
    } else {
        if is_digit(s[k]) {
            assert(s.take(k + 1).drop_last() =~= s.take(k));
            assert(all_digits(s.take(k + 1)));
            lemma_digits_nonneg(s.take(k + 1));
            assert(digits_val(s.take(k + 1)) == digits_val(s.take(k)) * 10 + digit_val(s[k]));
            assert(digits_val(s.take(k)) * 10 >= digits_val(s.take(k))) by (nonlinear_arith)
                requires
                    digits_val(s.take(k)) >= 0,
            ;
            lemma_digits_grow(s, k + 1);
        } else {
            lemma_digits_not_all(s, k);
        }
    }
}

proof fn lemma_digits_nonneg(s: Seq<char>)
    requires
        all_digits(s),
    ensures
        digits_val(s) >= 0,
    decreases s.len(),
{
    if s.len() > 0 {
        assert(all_digits(s.drop_last()));
        lemma_digits_nonneg(s.drop_last());
        assert(digits_val(s.drop_last()) * 10 >= 0) by (nonlinear_arith)
            requires
                digits_val(s.drop_last()) >= 0,
        ;
    }
}

proof fn lemma_digits_not_all(s: Seq<char>, k: int)
    requires
        0 <= k < s.len(),
        !is_digit(s[k]),
    ensures
        !all_digits(s),
{
}

/// The first position at or after `from` holding `c`, or the length.
fn find_first_from(s: &str, from: usize, c: char) -> (r: usize)
    requires
        from <= s@.len(),
    ensures
        from <= r <= s@.len(),
        forall|k: int| from <= k < r ==> s@[k] != c,
        r < s@.len() ==> s@[r as int] == c,
{
    let len: usize = s.unicode_len();
    let mut j: usize = from;
    while j < len
        invariant
            from <= j <= len,
            len == s@.len(),
            forall|k: int| from <= k < j ==> s@[k] != c,
        decreases len - j,
    {
        if s.get_char(j) == c {
            return j;
        }
        j = j + 1;
    }
    len
}

/// Parse a full decimal string ("42", "42.54", "-1.5") exactly.
pub fn parse_decimal_str(s: &str) -> (r: ParsedDecimal)
    ensures
        ({
            match r {
                ParsedDecimal::Value(v) => v.wf() && (parse_decimal(s@) matches Some(p) && v.frac()
                    == p && frac_fits(p)),
                ParsedDecimal::NotNumber => parse_decimal(s@) is None,
                ParsedDecimal::TooBig => (parse_decimal(s@) matches Some(p) && !frac_fits(p)),
            }
        }),
{
    let len: usize = s.unicode_len();
    let neg = len > 0 && s.get_char(0) == '-';
    let start: usize = if neg {
        1
    } else {
        0
    };
    let ghost body = if neg {
        s@.skip(1)
    } else {
        s@
    };
    proof {
        if neg {
            assert(body =~= s@.subrange(1, len as int));
        } else {
            assert(body =~= s@.subrange(0, len as int));
        }
    }
    let dot: usize = find_first_from(s, start, '.');
    proof {
        if dot < len {
            assert(body[dot - start] == '.');
            assert(forall|k: int| 0 <= k < dot - start ==> body[k] == s@[k + start] && body[k]
                != '.');
            crate::key_path::lemma_first_index_is(body, '.', dot - start);
        }
    }
    if dot == len {
        proof {
            assert(forall|k: int| 0 <= k < body.len() ==> body[k] == s@[k + start] && body[k] != '.');
            crate::key_path::lemma_first_index_is_none(body, '.');
        }
        if len == start {
            return ParsedDecimal::NotNumber;
        }
        match parse_digits(s, start, len) {
            None => {
                proof {
                    assert(body =~= s@.subrange(start as int, len as int));
                }
                if all_digits_check(s, start, len) {
                    proof {
                        lemma_digits_nonneg(body);
                    }
                    return ParsedDecimal::TooBig;
                }
                return ParsedDecimal::NotNumber;
            },
            Some(v) => {
                proof {
                    assert(body =~= s@.subrange(start as int, len as int));
                    assert(all_digits(body));
                    assert(v == digits_val(body));
                    assert(body.len() > 0);
                    assert(first_index_of(body, '.') == body.len());
                    if neg {
                        assert(parse_decimal(s@) == Some((-1int * digits_val(body), 1int)));
                    } else {
                        assert(parse_decimal(s@) == Some((1int * digits_val(body), 1int)));
                    }
                }
                if neg {
                    return ParsedDecimal::Value(Rational::new(-v, 1));
                }
                return ParsedDecimal::Value(Rational::new(v, 1));
            },
        }
    } else {
        let ghost d = dot - start;
        let ghost ip = body.take(d as int);
        let ghost fp = body.skip(d + 1);
        proof {
            assert(ip =~= s@.subrange(start as int, dot as int));
            assert(fp =~= s@.subrange(dot + 1, len as int));
            lemma_pow10_pos(fp.len());
        }
        if dot == start && dot + 1 == len {
            proof {
                assert(ip.len() + fp.len() == 0);
            }
            return ParsedDecimal::NotNumber;
        }
        let ipv = match parse_digits(s, start, dot) {
            None => {
                if all_digits_check(s, start, dot) && all_digits_check(s, dot + 1, len) {
                    proof {
                        lemma_digits_nonneg(ip);
                        lemma_digits_nonneg(fp);
                        assert(digits_val(ip) * pow10(fp.len()) >= digits_val(ip))
                            by (nonlinear_arith)
                            requires
                                digits_val(ip) >= 0,
                                pow10(fp.len()) >= 1,
                        ;
                    }
                    return ParsedDecimal::TooBig;
                }
                return ParsedDecimal::NotNumber;
            },
            Some(v) => v,
        };
        let fpv = match parse_digits(s, dot + 1, len) {
            None => {
                if all_digits_check(s, dot + 1, len) {
                    proof {
                        lemma_digits_nonneg(ip);
                        lemma_digits_nonneg(fp);
                        assert(digits_val(ip) * pow10(fp.len()) >= 0) by (nonlinear_arith)
                            requires
                                digits_val(ip) >= 0,
                                pow10(fp.len()) >= 1,
                        ;
                    }
                    return ParsedDecimal::TooBig;
                }
                return ParsedDecimal::NotNumber;
            },
            Some(v) => v,
        };
        let fplen = len - (dot + 1);
        proof {
            assert(fplen as nat == fp.len());
            lemma_digits_nonneg(ip);
            lemma_digits_nonneg(fp);
        }
        let scale = match pow10_i64(fplen) {
            None => {
                proof {
                    assert(digits_val(ip) * pow10(fp.len()) >= 0) by (nonlinear_arith)
                        requires
                            digits_val(ip) >= 0,
                            pow10(fp.len()) >= 1,
                    ;
                }
                return ParsedDecimal::TooBig;
            },
            Some(p) => p,
        };
        let a = match ipv.checked_mul(scale) {
            None => {
                proof {
                    assert(ipv * scale > i64::MAX) by (nonlinear_arith)
                        requires
                            ipv >= 0,
                            scale >= 1,
                            !(i64::MIN <= ipv * scale <= i64::MAX),
                    ;
                }
                return ParsedDecimal::TooBig;
            },
            Some(a) => a,
        };
        let numv = match a.checked_add(fpv) {
            None => {
                return ParsedDecimal::TooBig;
            },
            Some(n) => n,
        };
        proof {
            assert(scale >= 1);
            assert(ipv * scale >= 0) by (nonlinear_arith)
                requires
                    ipv >= 0,
                    scale >= 1,
            ;
            assert(numv >= 0);
        }
        if neg {
            ParsedDecimal::Value(Rational::new(-numv, scale))
        } else {
            ParsedDecimal::Value(Rational::new(numv, scale))
        }
    }
}

fn all_digits_check(s: &str, from: usize, to: usize) -> (r: bool)
    requires
        from <= to <= s@.len(),
    ensures
        r == all_digits(s@.subrange(from as int, to as int)),
{
    let ghost part = s@.subrange(from as int, to as int);
    let mut i: usize = from;
    while i < to
        invariant
            from <= i <= to <= s@.len(),
            part == s@.subrange(from as int, to as int),
            forall|k: int| 0 <= k < i - from ==> is_digit(#[trigger] part[k]),
        decreases to - i,
    {
        let c = s.get_char(i);
        proof {
            assert(part[i - from] == c);
        }
        if digit_of(c).is_none() {
            return false;
        }
        i = i + 1;
    }
    true
}

fn pow10_i64(n: usize) -> (r: Option<i64>)
    ensures
        r matches Some(p) ==> p == pow10(n as nat) && p >= 1,
        r is None ==> pow10(n as nat) > i64::MAX,
    decreases n,
{
    if n == 0 {
        Some(1)
    } else {
        match pow10_i64(n - 1) {
            None => {
                proof {
                    lemma_pow10_pos((n - 1) as nat);
                    assert(pow10(n as nat) == 10 * pow10((n - 1) as nat));
                    assert(10 * pow10((n - 1) as nat) > i64::MAX) by (nonlinear_arith)
                        requires
                            pow10((n - 1) as nat) > i64::MAX,
                    ;
                }
                None
            },
            Some(p) => match p.checked_mul(10) {
                None => None,
                Some(p10) => Some(p10),
            },
        }
    }
}

proof fn lemma_pow10_pos(n: nat)
    ensures
        pow10(n) >= 1,
    decreases n,
{
    if n > 0 {
        lemma_pow10_pos((n - 1) as nat);
        assert(10 * pow10((n - 1) as nat) >= 10) by (nonlinear_arith)
            requires
                pow10((n - 1) as nat) >= 1,
        ;
    }
}

/// A character the leading numeric part may hold.
pub open spec fn is_num_char(c: char) -> bool {
    is_digit(c) || c == '.' || c == '/'
}

/// How long the leading numeric part of `s` runs.
pub open spec fn numeric_prefix_len(s: Seq<char>) -> int
    decreases s.len(),
{
    if s.len() == 0 || !is_num_char(s[0]) {
        0
    } else {
        1 + numeric_prefix_len(s.skip(1))
    }
}

proof fn lemma_numeric_prefix(s: Seq<char>, j: int)
    requires
        0 <= j <= s.len(),
        forall|k: int| 0 <= k < j ==> is_num_char(#[trigger] s[k]),
        j < s.len() ==> !is_num_char(s[j]),
    ensures
        numeric_prefix_len(s) == j,
    decreases j,
{
    if j == 0 {
    } else {
        assert(forall|k: int| 0 <= k < j - 1 ==> s.skip(1)[k] == s[k + 1]);
        if j < s.len() {
            assert(s.skip(1)[j - 1] == s[j]);
        }
        lemma_numeric_prefix(s.skip(1), j - 1);
    }
}

/// What the leading numeric part of a string denotes: a fraction
/// ("1/2", exact quotient of two machine-sized decimals, failing on a
/// zero divisor or a second slash) or a plain decimal; anything
/// without a numeric prefix fails.
pub open spec fn spec_numeric(s: Seq<char>) -> Option<(int, int)> {
    let p = s.take(numeric_prefix_len(s));
    let j = first_index_of(p, '/');
    if j == p.len() {
        parse_decimal(p)
    } else {
        let a = p.take(j);
        let b = p.skip(j + 1);
        if first_index_of(b, '/') != b.len() {
            None
        } else {
            match (parse_decimal(a), parse_decimal(b)) {
                (Some(x), Some(y)) => if y.0 != 0 && frac_fits(x) && frac_fits(y) {
                    Some(frac_div(x, y))
                } else {
                    None
                },
                _ => None,
            }
        }
    }
}

/// Read the number that starts a quantity string: "42", "42.54",
/// "1/2tsp", "42 ounces". Free text gives `None`; exact as the model
/// says, except that a value outside the machine's integer range also
/// gives `None`.
pub fn parse_numeric(value: &str) -> (r: Option<Rational>)
    ensures
        r matches Some(v) ==> v.wf() && (spec_numeric(value@) matches Some(p) && v.frac() == p),
        r is None ==> spec_numeric(value@) is None || (spec_numeric(value@) matches Some(p)
            && !frac_fits(p)),
{
    let len: usize = value.unicode_len();
    let mut plen: usize = 0;
    while plen < len && is_num_char_exec(value.get_char(plen))
        invariant
            0 <= plen <= len,
            len == value@.len(),
            forall|k: int| 0 <= k < plen ==> is_num_char(#[trigger] value@[k]),
        decreases len - plen,
    {
        plen = plen + 1;
    }
    proof {
        lemma_numeric_prefix(value@, plen as int);
    }
    let p = value.substring_char(0, plen);
    proof {
        assert(p@ =~= value@.take(plen as int));
    }
    let slash: usize = find_first_from(p, 0, '/');
    proof {
        if slash < plen {
            crate::key_path::lemma_first_index_is(p@, '/', slash as int);
        }
    }
    if slash == plen {
        proof {
            crate::key_path::lemma_first_index_is_none(p@, '/');
        }
        match parse_decimal_str(p) {
            ParsedDecimal::Value(v) => Some(v),
            ParsedDecimal::TooBig => None,
            ParsedDecimal::NotNumber => None,
        }
    } else {
        let a = p.substring_char(0, slash);
        let b = p.substring_char(slash + 1, plen);
        proof {
            assert(a@ =~= p@.take(slash as int));
            assert(b@ =~= p@.skip(slash + 1));
        }
        let blen = plen - (slash + 1);
        let second = find_first_from(b, 0, '/');
        if second < blen {
            proof {
                crate::key_path::lemma_first_index_bounded(b@, '/', second as int);
            }
            return None;
        }
        proof {
            crate::key_path::lemma_first_index_is_none(b@, '/');
        }
        match (parse_decimal_str(a), parse_decimal_str(b)) {
            (ParsedDecimal::Value(x), ParsedDecimal::Value(y)) => {
                if y.num == 0 {
                    return None;
                }
                x.div(y)
            },
            (ParsedDecimal::NotNumber, _) => None,
            (_, ParsedDecimal::NotNumber) => None,
            _ => None,
        }
    }
}

fn is_num_char_exec(c: char) -> (r: bool)
    ensures
        r == is_num_char(c),
{
    digit_of(c).is_some() || c == '.' || c == '/'
}

/// How a quantity's value text reads: a number when it parses as one,
/// a range when one dash splits it into two numbers, free text
/// otherwise.
pub open spec fn spec_quantity_value(s: Seq<char>) -> AmountModel {
    match parse_decimal(s) {
        Some(p) => AmountModel::Num(p),
        None => {
            let j = first_index_of(s, '-');
            if j < s.len() && first_index_of(s.skip(j + 1), '-') == s.skip(j + 1).len() {
                let a = spec_trim(s.take(j));
                let b = spec_trim(s.skip(j + 1));
                match (parse_decimal(a), parse_decimal(b)) {
                    (Some(x), Some(y)) => AmountModel::Rng(x, y),
                    _ => AmountModel::Txt(s),
                }
            } else {
                AmountModel::Txt(s)
            }
        },
    }
}

/// Whitespace that trimming removes.
pub open spec fn is_ws(c: char) -> bool {
    c == ' ' || c == '\t' || c == '\n' || c == '\r'
}

pub open spec fn leading_ws(s: Seq<char>) -> int
    decreases s.len(),
{
    if s.len() == 0 || !is_ws(s[0]) {
        0
    } else {
        1 + leading_ws(s.skip(1))
    }
}

pub open spec fn trailing_ws(s: Seq<char>) -> int
    decreases s.len(),
{
    if s.len() == 0 || !is_ws(s.last()) {
        0
    } else {
        1 + trailing_ws(s.drop_last())
    }
}

/// `s` with leading and trailing whitespace removed.
pub open spec fn spec_trim(s: Seq<char>) -> Seq<char> {
    let l = leading_ws(s);
    let t = trailing_ws(s);
    if l + t <= s.len() {
        s.subrange(l, s.len() - t)
    } else {
        Seq::empty()
    }
}

proof fn lemma_ws_bounds(s: Seq<char>)
    ensures
        0 <= leading_ws(s) <= s.len(),
        0 <= trailing_ws(s) <= s.len(),
    decreases s.len(),
{
    if s.len() > 0 {
        lemma_ws_bounds(s.skip(1));
        lemma_ws_bounds(s.drop_last());
    }
}

proof fn lemma_leading_ws(s: Seq<char>, j: int)
    requires
        0 <= j <= s.len(),
        forall|k: int| 0 <= k < j ==> is_ws(#[trigger] s[k]),
        j < s.len() ==> !is_ws(s[j]),
    ensures
        leading_ws(s) == j,
    decreases j,
{
    if j > 0 {
        assert(forall|k: int| 0 <= k < j - 1 ==> s.skip(1)[k] == s[k + 1]);
        if j < s.len() {
            assert(s.skip(1)[j - 1] == s[j]);
        }
        lemma_leading_ws(s.skip(1), j - 1);
    }
}

proof fn lemma_trailing_ws(s: Seq<char>, j: int)
    requires
        0 <= j <= s.len(),
        forall|k: int| s.len() - j <= k < s.len() ==> is_ws(#[trigger] s[k]),
        j < s.len() ==> !is_ws(s[s.len() - j - 1]),
    ensures
        trailing_ws(s) == j,
    decreases j,
{
    if j > 0 {
        assert(is_ws(s.last()));
        assert(forall|k: int|
            s.drop_last().len() - (j - 1) <= k < s.drop_last().len() ==> s.drop_last()[k] == s[k]
                && is_ws(#[trigger] s.drop_last()[k]));
        if j - 1 < s.drop_last().len() {
            assert(s.drop_last()[s.drop_last().len() - (j - 1) - 1] == s[s.len() - j - 1]);
        }
        lemma_trailing_ws(s.drop_last(), j - 1);
    }
}

/// Strip leading and trailing whitespace, as the trim model says.
pub fn trim_text(s: &str) -> (r: &str)
    ensures
        r@ == spec_trim(s@),
{
    let len: usize = s.unicode_len();
    let mut l: usize = 0;
    while l < len && is_ws_exec(s.get_char(l))
        invariant
            0 <= l <= len,
            len == s@.len(),
            forall|k: int| 0 <= k < l ==> is_ws(#[trigger] s@[k]),
        decreases len - l,
    {
        l = l + 1;
    }
    proof {
        lemma_leading_ws(s@, l as int);
        lemma_ws_bounds(s@);
    }
    if l == len {
        let r = s.substring_char(len, len);
        proof {
            if leading_ws(s@) + trailing_ws(s@) <= s@.len() {
                assert(trailing_ws(s@) == 0);
            }
            assert(r@ =~= spec_trim(s@));
        }
        return r;
    }
    let mut t: usize = 0;
    while t < len && is_ws_exec(s.get_char(len - 1 - t))
        invariant
            0 <= t <= len,
            len == s@.len(),
            forall|k: int| len - t <= k < len ==> is_ws(#[trigger] s@[k]),
        decreases len - t,
    {
        t = t + 1;
    }
    proof {
        lemma_trailing_ws(s@, t as int);
        assert(l + t <= len);
    }
    let r = s.substring_char(l, len - t);
    proof {
        assert(r@ =~= spec_trim(s@));
    }
    r
}

fn is_ws_exec(c: char) -> (r: bool)
    ensures
        r == is_ws(c),
{
    c == ' ' || c == '\t' || c == '\n' || c == '\r'
}

/// The value a quantity text denotes is representable on this machine.
pub open spec fn value_fits(s: Seq<char>) -> bool {
    match spec_quantity_value(s) {
        AmountModel::Num(p) => frac_fits(p),
        AmountModel::Rng(a, b) => frac_fits(a) && frac_fits(b),
        AmountModel::Txt(_) => true,
    }
}

/// Build a quantity from its value text and unit, reading the value as
/// a number, a dash range of two numbers, or free text — exactly as
/// the model says, except that values outside the machine's integer
/// range fall back to free text.
pub fn quantity_from_text(value: &str, unit: Option<String>) -> (r: Quantity)
    ensures
        r.wf(),
        ({
            let expect = QuantityModel {
                amount: spec_quantity_value(value@),
                unit: match unit {
                    Some(u) => Some(u@),
                    None => None,
                },
            };
            r@ == expect || (!value_fits(value@) && r@.amount == AmountModel::Txt(value@)
                && r@.unit == expect.unit)
        }),
{
    let amount: Amount = match parse_decimal_str(value) {
        ParsedDecimal::Value(v) => Amount::Number(v),
        ParsedDecimal::TooBig => Amount::Text(String::from_str(value)),
        ParsedDecimal::NotNumber => {
            let len: usize = value.unicode_len();
            let dash: usize = find_first_from(value, 0, '-');
            if dash == len {
                proof {
                    crate::key_path::lemma_first_index_is_none(value@, '-');
                }
                Amount::Text(String::from_str(value))
            } else {
                proof {
                    crate::key_path::lemma_first_index_is(value@, '-', dash as int);
                }
                let rest = value.substring_char(dash + 1, len);
                proof {
                    assert(rest@ =~= value@.skip(dash + 1));
                }
                let rlen = len - (dash + 1);
                let second = find_first_from(rest, 0, '-');
                if second < rlen {
                    proof {
                        crate::key_path::lemma_first_index_bounded(rest@, '-', second as int);
                    }
                    Amount::Text(String::from_str(value))
                } else {
                    proof {
                        crate::key_path::lemma_first_index_is_none(rest@, '-');
                    }
                    let head = value.substring_char(0, dash);
                    proof {
                        assert(head@ =~= value@.take(dash as int));
                    }
                    let ta = trim_text(head);
                    let tb = trim_text(rest);
                    match (parse_decimal_str(ta), parse_decimal_str(tb)) {
                        (ParsedDecimal::Value(x), ParsedDecimal::Value(y)) => Amount::Range(x, y),
                        (ParsedDecimal::TooBig, _) => Amount::Text(String::from_str(value)),
                        (_, ParsedDecimal::TooBig) => Amount::Text(String::from_str(value)),
                        _ => Amount::Text(String::from_str(value)),
                    }
                }
            }
        },
    };
    Quantity { amount, unit }
}

} // verus!
