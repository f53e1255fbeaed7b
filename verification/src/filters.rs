//! String case filters for report templates: camelize, underscore,
//! dasherize, humanize, titleize and upcase-first.
//!
//! Character case mapping is Unicode work delegated to the standard
//! library; each filter's contract mirrors its loop exactly over those
//! mappings.
use vstd::prelude::*;

use crate::text::push_char;

verus! {

/// The first character of a character's Unicode uppercase mapping.
pub uninterp spec fn upper_char(c: char) -> char;

/// The first character of a character's Unicode lowercase mapping.
pub uninterp spec fn lower_char(c: char) -> char;

/// Whether a character counts as uppercase.
pub uninterp spec fn is_upper_char(c: char) -> bool;

/// Relies on `char::to_uppercase`: the mapping depends on the
/// character alone, and always yields at least one character.
#[verifier::external_body]
fn to_upper(c: char) -> (r: char)
    ensures
        r == upper_char(c),
{
    c.to_uppercase().next().unwrap_or(c)
}

/// Relies on `char::to_lowercase`: the mapping depends on the
/// character alone, and always yields at least one character.
#[verifier::external_body]
fn to_lower(c: char) -> (r: char)
    ensures
        r == lower_char(c),
{
    c.to_lowercase().next().unwrap_or(c)
}

/// Relies on `char::is_uppercase`: a property of the character alone.
#[verifier::external_body]
fn is_upper(c: char) -> (r: bool)
    ensures
        r == is_upper_char(c),
{
    c.is_uppercase()
}

/// One camelize step: separators set the capitalize flag; any other
/// character lands uppercased or lowercased by the flag.
pub open spec fn camelize_step(acc: (Seq<char>, bool), c: char) -> (Seq<char>, bool) {
    if c == '_' || c == '-' || c == ' ' {
        (acc.0, true)
    } else if acc.1 {
        (acc.0.push(upper_char(c)), false)
    } else {
        (acc.0.push(lower_char(c)), false)
    }
}

pub open spec fn spec_camelize(s: Seq<char>, i: int, acc: (Seq<char>, bool)) -> Seq<char>
    decreases s.len() - i,
{
    if i < 0 || i >= s.len() {
        acc.0
    } else {
        spec_camelize(s, i + 1, camelize_step(acc, s[i]))
    }
}

/// CamelCase a separated name: "hello_world" becomes "HelloWorld".
pub fn camelize_filter(value: &str) -> (r: String)
    ensures
        r@ == spec_camelize(value@, 0, (Seq::<char>::empty(), true)),
{
    let len: usize = value.unicode_len();
    let mut result = String::new();
    let mut capitalize_next = true;
    let mut i: usize = 0;
    while i < len
        invariant
            0 <= i <= len,
            len == value@.len(),
            spec_camelize(value@, 0, (Seq::<char>::empty(), true)) == spec_camelize(
                value@,
                i as int,
                (result@, capitalize_next),
            ),
        decreases len - i,
    {
        let c = value.get_char(i);
        if c == '_' || c == '-' || c == ' ' {
            capitalize_next = true;
        } else if capitalize_next {
            push_char(&mut result, to_upper(c));
            capitalize_next = false;
        } else {
            push_char(&mut result, to_lower(c));
        }
        i = i + 1;
    }
    result
}

/// One underscore step over (text so far, previous was uppercase).
pub open spec fn underscore_step(acc: (Seq<char>, bool), c: char, first: bool) -> (
    Seq<char>,
    bool,
) {
    if is_upper_char(c) {
        let withsep = if !first && !acc.1 {
            acc.0.push('_')
        } else {
            acc.0
        };
        (withsep.push(lower_char(c)), true)
    } else if c == '-' || c == ' ' {
        (acc.0.push('_'), false)
    } else {
        (acc.0.push(c), false)
    }
}

pub open spec fn spec_underscore(s: Seq<char>, i: int, acc: (Seq<char>, bool)) -> Seq<char>
    decreases s.len() - i,
{
    if i < 0 || i >= s.len() {
        acc.0
    } else {
        spec_underscore(s, i + 1, underscore_step(acc, s[i], i == 0))
    }
}

/// snake_case a name: "HelloWorld" becomes "hello_world".
pub fn underscore_filter(value: &str) -> (r: String)
    ensures
        r@ == spec_underscore(value@, 0, (Seq::<char>::empty(), false)),
{
    let len: usize = value.unicode_len();
    let mut result = String::new();
    let mut prev_is_upper = false;
    let mut i: usize = 0;
    while i < len
        invariant
            0 <= i <= len,
            len == value@.len(),
            spec_underscore(value@, 0, (Seq::<char>::empty(), false)) == spec_underscore(
                value@,
                i as int,
                (result@, prev_is_upper),
            ),
        decreases len - i,
    {
        let c = value.get_char(i);
        if is_upper(c) {
            if i > 0 && !prev_is_upper {
                push_char(&mut result, '_');
            }
            push_char(&mut result, to_lower(c));
            prev_is_upper = true;
        } else if c == '-' || c == ' ' {
            push_char(&mut result, '_');
            prev_is_upper = false;
        } else {
            push_char(&mut result, c);
            prev_is_upper = false;
        }
        i = i + 1;
    }
    result
}

/// One dasherize step over (text so far, previous was uppercase).
pub open spec fn dasherize_step(acc: (Seq<char>, bool), c: char, first: bool) -> (Seq<char>, bool) {
    if is_upper_char(c) {
        let withsep = if !first && !acc.1 {
            acc.0.push('-')
        } else {
            acc.0
        };
        (withsep.push(lower_char(c)), true)
    } else if c == '_' || c == ' ' {
        (acc.0.push('-'), false)
    } else {
        (acc.0.push(c), false)
    }
}

pub open spec fn spec_dasherize(s: Seq<char>, i: int, acc: (Seq<char>, bool)) -> Seq<char>
    decreases s.len() - i,
{
    if i < 0 || i >= s.len() {
        acc.0
    } else {
        spec_dasherize(s, i + 1, dasherize_step(acc, s[i], i == 0))
    }
}

/// kebab-case a name: "HelloWorld" becomes "hello-world".
pub fn dasherize_filter(value: &str) -> (r: String)
    ensures
        r@ == spec_dasherize(value@, 0, (Seq::<char>::empty(), false)),
{
    let len: usize = value.unicode_len();
    let mut result = String::new();
    let mut prev_is_upper = false;
    let mut i: usize = 0;
    while i < len
        invariant
            0 <= i <= len,
            len == value@.len(),
            spec_dasherize(value@, 0, (Seq::<char>::empty(), false)) == spec_dasherize(
                value@,
                i as int,
                (result@, prev_is_upper),
            ),
        decreases len - i,
    {
        let c = value.get_char(i);
        if is_upper(c) {
            if i > 0 && !prev_is_upper {
                push_char(&mut result, '-');
            }
            push_char(&mut result, to_lower(c));
            prev_is_upper = true;
        } else if c == '_' || c == ' ' {
            push_char(&mut result, '-');
            prev_is_upper = false;
        } else {
            push_char(&mut result, c);
            prev_is_upper = false;
        }
        i = i + 1;
    }
    result
}

/// One humanize step over (text so far, still before the first kept
/// character).
pub open spec fn humanize_step(acc: (Seq<char>, bool), c: char) -> (Seq<char>, bool) {
    if c == '_' || c == '-' {
        (acc.0.push(' '), acc.1)
    } else if acc.1 {
        (acc.0.push(upper_char(c)), false)
    } else {
        (acc.0.push(c), false)
    }
}

pub open spec fn spec_humanize(s: Seq<char>, i: int, acc: (Seq<char>, bool)) -> Seq<char>
    decreases s.len() - i,
{
    if i < 0 || i >= s.len() {
        acc.0
    } else {
        spec_humanize(s, i + 1, humanize_step(acc, s[i]))
    }
}

/// Replace separators with spaces and capitalize the first character:
/// "hello_world" becomes "Hello world".
pub fn humanize_filter(value: &str) -> (r: String)
    ensures
        r@ == spec_humanize(value@, 0, (Seq::<char>::empty(), true)),
{
    let len: usize = value.unicode_len();
    let mut result = String::new();
    let mut first = true;
    let mut i: usize = 0;
    while i < len
        invariant
            0 <= i <= len,
            len == value@.len(),
            spec_humanize(value@, 0, (Seq::<char>::empty(), true)) == spec_humanize(
                value@,
                i as int,
                (result@, first),
            ),
        decreases len - i,
    {
        let c = value.get_char(i);
        if c == '_' || c == '-' {
            push_char(&mut result, ' ');
        } else if first {
            push_char(&mut result, to_upper(c));
            first = false;
        } else {
            push_char(&mut result, c);
        }
        i = i + 1;
    }
    result
}

/// One titleize step over (text so far, capitalize next).
pub open spec fn titleize_step(acc: (Seq<char>, bool), c: char) -> (Seq<char>, bool) {
    if c == '_' || c == '-' {
        (acc.0.push(' '), true)
    } else if c == ' ' {
        (acc.0.push(' '), true)
    } else if acc.1 {
        (acc.0.push(upper_char(c)), false)
    } else {
        (acc.0.push(lower_char(c)), false)
    }
}

pub open spec fn spec_titleize(s: Seq<char>, i: int, acc: (Seq<char>, bool)) -> Seq<char>
    decreases s.len() - i,
{
    if i < 0 || i >= s.len() {
        acc.0
    } else {
        spec_titleize(s, i + 1, titleize_step(acc, s[i]))
    }
}

/// Title Case a separated name: "hello_world" becomes "Hello World".
pub fn titleize_filter(value: &str) -> (r: String)
    ensures
        r@ == spec_titleize(value@, 0, (Seq::<char>::empty(), true)),
{
    let len: usize = value.unicode_len();
    let mut result = String::new();
    let mut capitalize_next = true;
    let mut i: usize = 0;
    while i < len
        invariant
            0 <= i <= len,
            len == value@.len(),
            spec_titleize(value@, 0, (Seq::<char>::empty(), true)) == spec_titleize(
                value@,
                i as int,
                (result@, capitalize_next),
            ),
        decreases len - i,
    {
        let c = value.get_char(i);
        if c == '_' || c == '-' {
            push_char(&mut result, ' ');
            capitalize_next = true;
        } else if c == ' ' {
            push_char(&mut result, c);
            capitalize_next = true;
        } else if capitalize_next {
            push_char(&mut result, to_upper(c));
            capitalize_next = false;
        } else {
            push_char(&mut result, to_lower(c));
        }
        i = i + 1;
    }
    result
}

/// Whether a character counts as numeric, in the full Unicode sense.
pub uninterp spec fn is_numeric_char(c: char) -> bool;

/// Relies on `char::is_numeric`: a property of the character alone.
#[verifier::external_body]
fn char_is_numeric(c: char) -> (r: bool)
    ensures
        r == is_numeric_char(c),
{
    c.is_numeric()
}

/// A character the quantity filter's numeric prefix may hold.
pub open spec fn is_quantity_char(c: char) -> bool {
    is_numeric_char(c) || c == '.' || c == '/'
}

fn is_quantity_char_exec(c: char) -> (r: bool)
    ensures
        r == is_quantity_char(c),
{
    char_is_numeric(c) || c == '.' || c == '/'
}

/// How long the leading numeric part of a quantity text runs.
pub open spec fn quantity_prefix_len(s: Seq<char>) -> int
    decreases s.len(),
{
    if s.len() == 0 || !is_quantity_char(s[0]) {
        0
    } else {
        1 + quantity_prefix_len(s.skip(1))
    }
}

proof fn lemma_quantity_prefix(s: Seq<char>, j: int)
    requires
        0 <= j <= s.len(),
        forall|k: int| 0 <= k < j ==> is_quantity_char(#[trigger] s[k]),
        j < s.len() ==> !is_quantity_char(s[j]),
    ensures
        quantity_prefix_len(s) == j,
    decreases j,
{
    if j > 0 {
        assert(forall|k: int| 0 <= k < j - 1 ==> s.skip(1)[k] == s[k + 1]);
        if j < s.len() {
            assert(s.skip(1)[j - 1] == s[j]);
        }
        lemma_quantity_prefix(s.skip(1), j - 1);
    }
}

/// How a quantity's text normalizes: trimmed, and with exactly one
/// space between its leading numeric part and whatever follows. Text
/// without a numeric prefix keeps a leading space before it, and text
/// that is all numeric stays as it is.
pub open spec fn spec_quantity_filter(s: Seq<char>) -> Seq<char> {
    let t = crate::numeric::spec_trim(s);
    let j = quantity_prefix_len(t);
    if j == t.len() {
        t
    } else {
        t.take(j) + seq![' '] + crate::numeric::spec_trim(t.skip(j))
    }
}

/// Normalize the spacing between a quantity's number and its unit:
/// "42.5g" becomes "42.5 g".
pub fn quantity_filter(value: &str) -> (r: String)
    ensures
        r@ == spec_quantity_filter(value@),
{
    let t = crate::numeric::trim_text(value);
    let tlen: usize = t.unicode_len();
    let mut j: usize = 0;
    while j < tlen && is_quantity_char_exec(t.get_char(j))
        invariant
            0 <= j <= tlen,
            tlen == t@.len(),
            forall|k: int| 0 <= k < j ==> is_quantity_char(#[trigger] t@[k]),
        decreases tlen - j,
    {
        j = j + 1;
    }
    proof {
        lemma_quantity_prefix(t@, j as int);
    }
    if j == tlen {
        String::from_str(t)
    } else {
        let num = t.substring_char(0, j);
        let rest = t.substring_char(j, tlen);
        proof {
            assert(num@ =~= t@.take(j as int));
            assert(rest@ =~= t@.skip(j as int));
        }
        let unit = crate::numeric::trim_text(rest);
        let mut out = String::from_str(num);
        push_char(&mut out, ' ');
        out.append(unit);
        proof {
            assert(out@ =~= t@.take(j as int) + seq![' '] + crate::numeric::spec_trim(
                t@.skip(j as int),
            ));
        }
        out
    }
}

/// The input with its first character uppercased.
pub open spec fn spec_upcase_first(s: Seq<char>) -> Seq<char> {
    if s.len() == 0 {
        s
    } else {
        seq![upper_char(s[0])] + s.skip(1)
    }
}

/// Uppercase the first character: "hello world" becomes "Hello world".
pub fn upcase_first_filter(value: &str) -> (r: String)
    ensures
        r@ == spec_upcase_first(value@),
{
    let len: usize = value.unicode_len();
    if len == 0 {
        let r = String::new();
        proof {
            assert(r@ =~= value@);
        }
        return r;
    }
    let mut result = String::new();
    push_char(&mut result, to_upper(value.get_char(0)));
    let rest = value.substring_char(1, len);
    result.append(rest);
    proof {
        assert(result@ =~= seq![upper_char(value@[0])] + value@.skip(1));
    }
    result
}

} // verus!
