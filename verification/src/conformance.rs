//! Validation against the ISO 23387 structural grammar: global roots, child
//! sequences and choices, cardinalities, required and unknown attributes,
//! enumerations, patterns, and the XML Schema datatypes the vocabulary
//! uses.
//!
//! This is not a general XSD processor: there is no `xsi:type`
//! substitution, no identity constraint and no import of other schema
//! documents. Only the structural tables in [`crate::schema`] are consulted.

use vstd::prelude::*;
use crate::codec::{int_in, int_lexeme};
use crate::document::{
    elements_of, lemma_child_decreases, opt_str_view, text_of, Attribute, Document, Element, Node,
};
use crate::parser::XML_NAMESPACE;
use crate::schema::{
    attribute_rules, attribute_rules_of, child_rules, child_rules_of, choice_groups, choice_groups_of,
    data_type_name_values, data_type_name_values_of, global_root, global_root_of, handle_of, simple_type,
    simple_type_of, AttributeRule, ChildRule, ChoiceGroup,
};
use crate::text::{is_xml_space, spec_collapse};
use crate::NAMESPACE;
use crate::model::ascii_lower;
use crate::pattern::first_from;
use crate::text::{digit, is_digit};
use crate::value::{all_digits, days_in_month, digits_value, is_leap_year, strip_sign};

verus! {

// ---------------------------------------------------------------------------
// Lexical spaces
// ---------------------------------------------------------------------------

/// Exactly `n` decimal digits.
pub open spec fn fixed_digits(s: Seq<char>, n: int) -> bool {
    s.len() == n && all_digits(s)
}

/// The three pieces of `s` around `c`, when `c` occurs exactly twice.
pub open spec fn split3(s: Seq<char>, c: char) -> Option<(Seq<char>, Seq<char>, Seq<char>)> {
    let p = first_from(s, c, 0);
    let q = first_from(s, c, p + 1);
    if p < 0 || q < 0 || first_from(s, c, q + 1) >= 0 {
        None
    } else {
        Some((s.take(p), s.subrange(p + 1, q), s.skip(q + 1)))
    }
}

/// The last position before `j` holding `+` or `-`, or -1.
pub open spec fn last_sign(s: Seq<char>, j: int) -> int
    decreases j,
{
    if j <= 0 || j > s.len() {
        -1
    } else if s[j - 1] == '+' || s[j - 1] == '-' {
        j - 1
    } else {
        last_sign(s, j - 1)
    }
}

/// The leap-year rule on a year read as a signed 64-bit number: a year too
/// large for that reads as zero, which is a leap year.
pub open spec fn year_is_leap(y: Seq<char>) -> bool {
    if digits_value(y) <= i64::MAX as int {
        is_leap_year(digits_value(y))
    } else {
        true
    }
}

/// The date before the `T`: `CCYY-MM-DD` with at least four year digits, no
/// leading zero on a longer year, and a day the month has.
pub open spec fn date_part_ok(date: Seq<char>) -> bool {
    match split3(date, '-') {
        None => false,
        Some((y, m, d)) => {
            &&& y.len() >= 4 && all_digits(y)
            &&& !(y.len() > 4 && y[0] == '0')
            &&& fixed_digits(m, 2) && fixed_digits(d, 2)
            &&& 1 <= digits_value(m) <= 12
            &&& 1 <= digits_value(d) <= days_in_month(digits_value(m), year_is_leap(y))
        },
    }
}

/// A numeric zone after its sign: `hh:mm` up to `14:00`.
pub open spec fn zone_ok(z: Seq<char>) -> bool {
    let c = first_from(z, ':', 0);
    &&& c >= 0
    &&& fixed_digits(z.take(c), 2) && fixed_digits(z.skip(c + 1), 2)
    &&& digits_value(z.take(c)) <= 14 && digits_value(z.skip(c + 1)) <= 59
    &&& digits_value(z.take(c)) == 14 ==> digits_value(z.skip(c + 1)) == 0
}

/// Every character of `s` is `0`.
pub open spec fn all_zeros(s: Seq<char>) -> bool {
    forall|i: int| 0 <= i < s.len() ==> s[i] == '0'
}

/// The time: `hh:mm:ss` with an optional non-empty fraction; `24:00:00` is
/// the only hour-24 form, its fraction, if any, all zeros.
pub open spec fn time_ok(time: Seq<char>) -> bool {
    match split3(time, ':') {
        None => false,
        Some((h, m, rest)) => {
            let dot = first_from(rest, '.', 0);
            let secs = if dot >= 0 {
                rest.take(dot)
            } else {
                rest
            };
            let hour = digits_value(h);
            let minute = digits_value(m);
            let second = digits_value(secs);
            &&& fixed_digits(h, 2) && fixed_digits(m, 2) && fixed_digits(secs, 2)
            &&& dot >= 0 ==> (rest.skip(dot + 1).len() > 0 && all_digits(rest.skip(dot + 1)))
            &&& minute <= 59 && second <= 59
            &&& if hour == 24 {
                minute == 0 && second == 0 && (dot >= 0 ==> all_zeros(rest.skip(dot + 1)))
            } else {
                hour <= 23
            }
        },
    }
}

/// What follows the `T`: a time, then `Z`, or a sign and a zone.
pub open spec fn time_and_zone_ok(rest: Seq<char>) -> bool {
    if rest.len() > 0 && rest.last() == 'Z' {
        time_ok(rest.drop_last())
    } else {
        let p = last_sign(rest, rest.len() as int);
        if p >= 0 {
            zone_ok(rest.skip(p + 1)) && time_ok(rest.take(p))
        } else {
            time_ok(rest)
        }
    }
}

/// `xs:dateTime` as the schema check reads it:
/// `-?CCYY-MM-DDThh:mm:ss(.s+)?` with an optional `Z` or `(+|-)hh:mm`.
pub open spec fn schema_date_time(v: Seq<char>) -> bool {
    let body = if v.len() > 0 && v[0] == '-' {
        v.drop_first()
    } else {
        v
    };
    let t = first_from(body, 'T', 0);
    t >= 0 && date_part_ok(body.take(t)) && time_and_zone_ok(body.skip(t + 1))
}

/// `xs:integer`: an optional sign and at least one digit.
pub open spec fn integer_lexeme(v: Seq<char>) -> bool {
    strip_sign(v).len() > 0 && all_digits(strip_sign(v))
}

/// Whether an integer lexeme denotes zero or less.
pub open spec fn non_positive(v: Seq<char>) -> bool {
    (v.len() > 0 && v[0] == '-') || forall|i: int|
        0 <= i < crate::value::strip_plus(v).len() ==> #[trigger] crate::value::strip_plus(v)[i] == '0'
}

/// The first position at or after `i` holding `e` or `E`, or -1.
pub open spec fn first_exponent(s: Seq<char>, i: int) -> int
    decreases s.len() - i,
{
    if i < 0 || i >= s.len() {
        -1
    } else if s[i] == 'e' || s[i] == 'E' {
        i
    } else {
        first_exponent(s, i + 1)
    }
}

/// A float number after its sign: a decimal mantissa and an optional
/// exponent with its own optional sign.
pub open spec fn float_number(b: Seq<char>) -> bool {
    let e = first_exponent(b, 0);
    if e < 0 {
        crate::value::spec_is_decimal_body(b)
    } else {
        crate::value::spec_is_decimal_body(b.take(e)) && integer_lexeme(b.skip(e + 1))
    }
}

/// Rust's documented grammar for parsing a float: an optional sign, then
/// `inf`, `infinity` or `nan` in any case, or a number.
pub open spec fn float_lexeme(v: Seq<char>) -> bool {
    let b = strip_sign(v);
    let l = b.map_values(|c: char| ascii_lower(c));
    l =~= seq!['i', 'n', 'f'] || l =~= seq!['i', 'n', 'f', 'i', 'n', 'i', 't', 'y'] || l =~= seq!['n', 'a', 'n']
        || float_number(b)
}

/// Whether `v` lies in the lexical space of the named datatype. Only the
/// datatypes the vocabulary references are modelled; any other is admitted.
pub open spec fn lexical_admits(data_type: Seq<char>, v: Seq<char>) -> bool {
    if data_type == "xs:string"@ || data_type == "xs:anySimpleType"@ || data_type == "xs:anyURI"@ {
        true
    } else if data_type == "xs:boolean"@ {
        v =~= seq!['t', 'r', 'u', 'e'] || v =~= seq!['f', 'a', 'l', 's', 'e'] || v =~= seq!['1'] || v =~= seq!['0']
    } else if data_type == "xs:int"@ {
        int_lexeme(v) is Some
    } else if data_type == "xs:integer"@ {
        integer_lexeme(v)
    } else if data_type == "xs:positiveInteger"@ {
        integer_lexeme(v) && !non_positive(v)
    } else if data_type == "xs:decimal"@ {
        crate::value::spec_is_decimal(v)
    } else if data_type == "xs:double"@ || data_type == "xs:float"@ {
        v =~= seq!['I', 'N', 'F'] || v =~= seq!['-', 'I', 'N', 'F'] || v =~= seq!['N', 'a', 'N'] || float_lexeme(v)
    } else if data_type == "xs:dateTime"@ {
        schema_date_time(v)
    } else if data_type == "xs:language"@ {
        crate::value::spec_is_language(v)
    } else {
        true
    }
}

/// Whether every character of `v[lo..hi]` is a digit.
fn digits_in(v: &Vec<char>, lo: usize, hi: usize) -> (r: bool)
    requires
        lo <= hi <= v@.len(),
    ensures
        r == all_digits(v@.subrange(lo as int, hi as int)),
{
    let ghost s = v@.subrange(lo as int, hi as int);
    let mut i = lo;
    while i < hi
        invariant
            lo <= i <= hi <= v@.len(),
            s == v@.subrange(lo as int, hi as int),
            forall|k: int| lo <= k < i ==> is_digit(#[trigger] v@[k]),
        decreases hi - i,
    {
        if !digit(v[i]) {
            assert(s[i - lo] == v@[i as int]);
            return false;
        }
        i = i + 1;
    }
    assert forall|k: int| 0 <= k < s.len() implies is_digit(#[trigger] s[k]) by {
        assert(s[k] == v@[lo + k]);
    }
    true
}

proof fn lemma_two_digits(s: Seq<char>)
    requires
        s.len() == 2,
    ensures
        digits_value(s) == (s[0] as int - '0' as int) * 10 + (s[1] as int - '0' as int),
{
    reveal_with_fuel(digits_value, 3);
    assert(s.drop_last().drop_last() =~= Seq::<char>::empty());
    assert(s.drop_last().last() == s[0]);
}

/// Two digits at `v[lo..hi]` and their value.
fn two_digits(v: &Vec<char>, lo: usize, hi: usize) -> (r: Option<u32>)
    requires
        lo <= hi <= v@.len(),
    ensures
        match r {
            Some(x) => fixed_digits(v@.subrange(lo as int, hi as int), 2) && x as int == digits_value(
                v@.subrange(lo as int, hi as int),
            ),
            None => !fixed_digits(v@.subrange(lo as int, hi as int), 2),
        },
{
    let ghost s = v@.subrange(lo as int, hi as int);
    if hi - lo != 2 {
        return None;
    }
    let a = v[lo];
    let b = v[lo + 1];
    assert(s[0] == a && s[1] == b);
    if !digit(a) || !digit(b) {
        return None;
    }
    proof {
        lemma_two_digits(s);
        assert forall|k: int| 0 <= k < s.len() implies is_digit(#[trigger] s[k]) by {
            if k == 0 {
                assert(s[k] == a);
            } else {
                assert(s[k] == b);
            }
        }
    }
    Some(((a as u32) - ('0' as u32)) * 10 + ((b as u32) - ('0' as u32)))
}

/// The first position in `from..hi` holding `c`; the spec counts from `lo`.
fn find_in(v: &Vec<char>, c: char, lo: usize, from: usize, hi: usize) -> (r: Option<usize>)
    requires
        lo <= from <= hi <= v@.len(),
    ensures
        match r {
            Some(k) => from <= k < hi && first_from(v@.subrange(lo as int, hi as int), c, from - lo) == k - lo,
            None => first_from(v@.subrange(lo as int, hi as int), c, from - lo) == -1,
        },
{
    let ghost s = v@.subrange(lo as int, hi as int);
    let mut k = from;
    while k < hi && v[k] != c
        invariant
            lo <= from <= k <= hi <= v@.len(),
            s == v@.subrange(lo as int, hi as int),
            first_from(s, c, from - lo) == first_from(s, c, k - lo),
        decreases hi - k,
    {
        assert(s[k - lo] == v@[k as int]);
        k = k + 1;
    }
    if k == hi {
        None
    } else {
        assert(s[k - lo] == v@[k as int]);
        Some(k)
    }
}

/// The two positions of `c` in `v[lo..hi]` when it occurs exactly twice.
fn split3_in(v: &Vec<char>, c: char, lo: usize, hi: usize) -> (r: Option<(usize, usize)>)
    requires
        lo <= hi <= v@.len(),
    ensures
        match r {
            Some((p, q)) => lo <= p < q < hi && split3(v@.subrange(lo as int, hi as int), c) == Some(
                (
                    v@.subrange(lo as int, p as int),
                    v@.subrange(p + 1, q as int),
                    v@.subrange(q + 1, hi as int),
                ),
            ),
            None => split3(v@.subrange(lo as int, hi as int), c) is None,
        },
{
    let ghost s = v@.subrange(lo as int, hi as int);
    match find_in(v, c, lo, lo, hi) {
        None => None,
        Some(p) => match find_in(v, c, lo, p + 1, hi) {
            None => None,
            Some(q) => match find_in(v, c, lo, q + 1, hi) {
                Some(_) => None,
                None => {
                    assert(s.take(p - lo) =~= v@.subrange(lo as int, p as int));
                    assert(s.subrange(p - lo + 1, q - lo) =~= v@.subrange(p + 1, q as int));
                    assert(s.skip(q - lo + 1) =~= v@.subrange(q + 1, hi as int));
                    Some((p, q))
                },
            },
        },
    }
}

/// The leap-year rule on the digits `v[lo..hi]` read as a signed 64-bit year.
fn year_leap_in(v: &Vec<char>, lo: usize, hi: usize) -> (r: bool)
    requires
        lo <= hi <= v@.len(),
        all_digits(v@.subrange(lo as int, hi as int)),
    ensures
        r == year_is_leap(v@.subrange(lo as int, hi as int)),
{
    let ghost s = v@.subrange(lo as int, hi as int);
    let mut value: u128 = 0;
    let mut big = false;
    let mut i = lo;
    assert(s.take(0) =~= Seq::<char>::empty());
    while i < hi
        invariant
            lo <= i <= hi <= v@.len(),
            s == v@.subrange(lo as int, hi as int),
            all_digits(s),
            !big ==> value == digits_value(s.take(i - lo)) && value <= i64::MAX,
            big ==> digits_value(s.take(i - lo)) > i64::MAX,
            digits_value(s.take(i - lo)) >= 0,
        decreases hi - i,
    {
        let c = v[i];
        assert(s[i - lo] == c);
        assert(is_digit(s[i - lo]));
        proof {
            crate::pattern::lemma_digit_step(s, i - lo);
        }
        let d = ((c as u32) - ('0' as u32)) as u128;
        if !big {
            let next = value * 10 + d;
            if next > i64::MAX as u128 {
                big = true;
            } else {
                value = next;
            }
        }
        i = i + 1;
    }
    assert(s.take(s.len() as int) =~= s);
    if big {
        true
    } else {
        let y = value as u64;
        y % 4 == 0 && (y % 100 != 0 || y % 400 == 0)
    }
}

/// The date `v[lo..hi]`.
fn date_in(v: &Vec<char>, lo: usize, hi: usize) -> (r: bool)
    requires
        lo <= hi <= v@.len(),
    ensures
        r == date_part_ok(v@.subrange(lo as int, hi as int)),
{
    match split3_in(v, '-', lo, hi) {
        None => false,
        Some((p, q)) => {
            let ghost y = v@.subrange(lo as int, p as int);
            if p - lo < 4 {
                return false;
            }
            if !digits_in(v, lo, p) {
                return false;
            }
            assert(y[0] == v@[lo as int]);
            if p - lo > 4 && v[lo] == '0' {
                return false;
            }
            match (two_digits(v, p + 1, q), two_digits(v, q + 1, hi)) {
                (Some(month), Some(day)) => {
                    if month < 1 || month > 12 || day < 1 {
                        return false;
                    }
                    let leap = year_leap_in(v, lo, p);
                    let max = crate::value::days_in_month_exec(month, leap);
                    day <= max
                },
                _ => false,
            }
        },
    }
}

/// A numeric zone `v[lo..hi]` after its sign.
fn zone_in(v: &Vec<char>, lo: usize, hi: usize) -> (r: bool)
    requires
        lo <= hi <= v@.len(),
    ensures
        r == zone_ok(v@.subrange(lo as int, hi as int)),
{
    let ghost z = v@.subrange(lo as int, hi as int);
    match find_in(v, ':', lo, lo, hi) {
        None => false,
        Some(c) => {
            assert(z.take(c - lo) =~= v@.subrange(lo as int, c as int));
            assert(z.skip(c - lo + 1) =~= v@.subrange(c + 1, hi as int));
            match (two_digits(v, lo, c), two_digits(v, c + 1, hi)) {
                (Some(h), Some(m)) => h <= 14 && m <= 59 && (h != 14 || m == 0),
                _ => false,
            }
        },
    }
}

/// The time `v[lo..hi]`.
fn time_in(v: &Vec<char>, lo: usize, hi: usize) -> (r: bool)
    requires
        lo <= hi <= v@.len(),
    ensures
        r == time_ok(v@.subrange(lo as int, hi as int)),
{
    match split3_in(v, ':', lo, hi) {
        None => false,
        Some((p, q)) => {
            let ghost rest = v@.subrange(q + 1, hi as int);
            let dot = find_in(v, '.', q + 1, q + 1, hi);
            let secs_end = match dot {
                Some(k) => k,
                None => hi,
            };
            proof {
                if let Some(k) = dot {
                    assert(rest.take(k - (q + 1)) =~= v@.subrange(q + 1, k as int));
                    assert(rest.skip(k - (q + 1) + 1) =~= v@.subrange(k + 1, hi as int));
                }
            }
            let fraction_ok = match dot {
                Some(k) => k + 1 < hi && digits_in(v, k + 1, hi),
                None => true,
            };
            match (two_digits(v, lo, p), two_digits(v, p + 1, q), two_digits(v, q + 1, secs_end)) {
                (Some(hour), Some(minute), Some(second)) => {
                    fraction_ok && minute <= 59 && second <= 59 && if hour == 24 {
                        minute == 0 && second == 0 && match dot {
                            Some(k) => zeros_in(v, k + 1, hi),
                            None => true,
                        }
                    } else {
                        hour <= 23
                    }
                },
                _ => false,
            }
        },
    }
}

/// Whether `v[lo..hi]` is all zeros.
fn zeros_in(v: &Vec<char>, lo: usize, hi: usize) -> (r: bool)
    requires
        lo <= hi <= v@.len(),
    ensures
        r == all_zeros(v@.subrange(lo as int, hi as int)),
{
    let mut i = lo;
    while i < hi
        invariant
            lo <= i <= hi <= v@.len(),
            forall|k: int| lo <= k < i ==> v@[k] == '0',
        decreases hi - i,
    {
        if v[i] != '0' {
            assert(v@.subrange(lo as int, hi as int)[i - lo] != '0');
            return false;
        }
        i = i + 1;
    }
    assert forall|k: int| 0 <= k < hi - lo implies v@.subrange(lo as int, hi as int)[k] == '0' by {
        assert(v@[lo + k] == '0');
    }
    true
}

/// The last sign in `v[lo..hi]`.
fn last_sign_in(v: &Vec<char>, lo: usize, hi: usize) -> (r: Option<usize>)
    requires
        lo <= hi <= v@.len(),
    ensures
        match r {
            Some(k) => lo <= k < hi && last_sign(v@.subrange(lo as int, hi as int), hi - lo) == k - lo,
            None => last_sign(v@.subrange(lo as int, hi as int), hi - lo) == -1,
        },
{
    let ghost s = v@.subrange(lo as int, hi as int);
    let mut j = hi;
    while j > lo && !(v[j - 1] == '+' || v[j - 1] == '-')
        invariant
            lo <= j <= hi <= v@.len(),
            s == v@.subrange(lo as int, hi as int),
            last_sign(s, hi - lo) == last_sign(s, j - lo),
        decreases j,
    {
        assert(s[j - 1 - lo] == v@[j - 1]);
        j = j - 1;
    }
    if j == lo {
        None
    } else {
        assert(s[j - 1 - lo] == v@[j - 1]);
        Some(j - 1)
    }
}

/// What follows the `T`, in `v[lo..hi]`.
fn time_and_zone_in(v: &Vec<char>, lo: usize, hi: usize) -> (r: bool)
    requires
        lo <= hi <= v@.len(),
    ensures
        r == time_and_zone_ok(v@.subrange(lo as int, hi as int)),
{
    let ghost s = v@.subrange(lo as int, hi as int);
    if hi > lo && v[hi - 1] == 'Z' {
        assert(s.last() == v@[hi - 1]);
        assert(s.drop_last() =~= v@.subrange(lo as int, hi - 1));
        time_in(v, lo, hi - 1)
    } else {
        assert(hi > lo ==> s.last() == v@[hi - 1]);
        match last_sign_in(v, lo, hi) {
            Some(k) => {
                assert(s.skip(k - lo + 1) =~= v@.subrange(k + 1, hi as int));
                assert(s.take(k - lo) =~= v@.subrange(lo as int, k as int));
                zone_in(v, k + 1, hi) && time_in(v, lo, k)
            },
            None => time_in(v, lo, hi),
        }
    }
}

/// Whether `v` is an `xs:dateTime` as the schema check reads it.
fn date_time_admits(v: &Vec<char>) -> (r: bool)
    ensures
        r == schema_date_time(v@),
{
    let lo: usize = if v.len() > 0 && v[0] == '-' {
        1
    } else {
        0
    };
    let ghost body = v@.subrange(lo as int, v@.len() as int);
    assert(body =~= (if v@.len() > 0 && v@[0] == '-' {
        v@.drop_first()
    } else {
        v@
    }));
    match find_in(v, 'T', lo, lo, v.len()) {
        None => false,
        Some(t) => {
            assert(body.take(t - lo) =~= v@.subrange(lo as int, t as int));
            assert(body.skip(t - lo + 1) =~= v@.subrange(t + 1, v@.len() as int));
            date_in(v, lo, t) && time_and_zone_in(v, t + 1, v.len())
        },
    }
}

/// Whether `v[lo..hi]` is an optional sign followed by at least one digit.
fn integer_in(v: &Vec<char>, lo: usize, hi: usize) -> (r: bool)
    requires
        lo <= hi <= v@.len(),
    ensures
        r == integer_lexeme(v@.subrange(lo as int, hi as int)),
{
    let ghost s = v@.subrange(lo as int, hi as int);
    let start = if hi > lo && (v[lo] == '+' || v[lo] == '-') {
        lo + 1
    } else {
        lo
    };
    assert(strip_sign(s) =~= v@.subrange(start as int, hi as int));
    start < hi && digits_in(v, start, hi)
}

/// Whether an integer lexeme denotes zero or less.
fn non_positive_in(v: &Vec<char>) -> (r: bool)
    ensures
        r == non_positive(v@),
{
    if v.len() > 0 && v[0] == '-' {
        return true;
    }
    let start: usize = if v.len() > 0 && v[0] == '+' {
        1
    } else {
        0
    };
    let ghost d = crate::value::strip_plus(v@);
    assert(d =~= v@.subrange(start as int, v@.len() as int));
    let mut i = start;
    while i < v.len()
        invariant
            start <= i <= v@.len(),
            d == v@.subrange(start as int, v@.len() as int),
            d == crate::value::strip_plus(v@),
            !(v@.len() > 0 && v@[0] == '-'),
            forall|k: int| 0 <= k < i - start ==> #[trigger] d[k] == '0',
        decreases v.len() - i,
    {
        assert(d[i - start] == v@[i as int]);
        if v[i] != '0' {
            assert(crate::value::strip_plus(v@)[i - start] != '0');
            return false;
        }
        i = i + 1;
    }
    true
}

fn lower(c: char) -> (r: char)
    ensures
        r == ascii_lower(c),
{
    if 'A' <= c && c <= 'Z' {
        ((c as u8) + 32) as char
    } else {
        c
    }
}

/// Whether `v[lo..hi]`, lower-cased, is `word`.
fn lowered_is(v: &Vec<char>, lo: usize, hi: usize, word: &Vec<char>) -> (r: bool)
    requires
        lo <= hi <= v@.len(),
    ensures
        r == (v@.subrange(lo as int, hi as int).map_values(|c: char| ascii_lower(c)) =~= word@),
{
    let ghost l = v@.subrange(lo as int, hi as int).map_values(|c: char| ascii_lower(c));
    if hi - lo != word.len() {
        return false;
    }
    let mut i: usize = 0;
    while i < word.len()
        invariant
            i <= word@.len() == hi - lo,
            lo <= hi <= v@.len(),
            l == v@.subrange(lo as int, hi as int).map_values(|c: char| ascii_lower(c)),
            forall|k: int| 0 <= k < i ==> l[k] == word@[k],
        decreases word.len() - i,
    {
        assert(l[i as int] == ascii_lower(v@[lo + i]));
        if lower(v[lo + i]) != word[i] {
            return false;
        }
        i = i + 1;
    }
    true
}

/// The first exponent marker in `v[lo..hi]`.
fn exponent_in(v: &Vec<char>, lo: usize, hi: usize) -> (r: Option<usize>)
    requires
        lo <= hi <= v@.len(),
    ensures
        match r {
            Some(k) => lo <= k < hi && first_exponent(v@.subrange(lo as int, hi as int), 0) == k - lo,
            None => first_exponent(v@.subrange(lo as int, hi as int), 0) == -1,
        },
{
    let ghost s = v@.subrange(lo as int, hi as int);
    let mut k = lo;
    while k < hi && v[k] != 'e' && v[k] != 'E'
        invariant
            lo <= k <= hi <= v@.len(),
            s == v@.subrange(lo as int, hi as int),
            first_exponent(s, 0) == first_exponent(s, k - lo),
        decreases hi - k,
    {
        assert(s[k - lo] == v@[k as int]);
        k = k + 1;
    }
    if k == hi {
        None
    } else {
        assert(s[k - lo] == v@[k as int]);
        Some(k)
    }
}

/// Whether Rust's float parser accepts `v`.
fn float_admits(v: &Vec<char>) -> (r: bool)
    ensures
        r == float_lexeme(v@),
{
    let n = v.len();
    let lo: usize = if n > 0 && (v[0] == '+' || v[0] == '-') {
        1
    } else {
        0
    };
    let ghost b = strip_sign(v@);
    assert(b =~= v@.subrange(lo as int, n as int));
    if lowered_is(v, lo, n, &vec!['i', 'n', 'f']) || lowered_is(v, lo, n, &vec!['i', 'n', 'f', 'i', 'n', 'i', 't', 'y'])
        || lowered_is(v, lo, n, &vec!['n', 'a', 'n']) {
        return true;
    }
    match exponent_in(v, lo, n) {
        None => crate::value::decimal_body_in(v, lo, n),
        Some(e) => {
            assert(b.take(e - lo) =~= v@.subrange(lo as int, e as int));
            assert(b.skip(e - lo + 1) =~= v@.subrange(e + 1, n as int));
            crate::value::decimal_body_in(v, lo, e) && integer_in(v, e + 1, n)
        },
    }
}

/// Whether `v` is exactly the characters of `word`.
fn chars_are(v: &Vec<char>, word: &Vec<char>) -> (r: bool)
    ensures
        r == (v@ =~= word@),
{
    if v.len() != word.len() {
        return false;
    }
    let mut i: usize = 0;
    while i < v.len()
        invariant
            i <= v@.len() == word@.len(),
            forall|k: int| 0 <= k < i ==> v@[k] == word@[k],
        decreases v.len() - i,
    {
        if v[i] != word[i] {
            return false;
        }
        i = i + 1;
    }
    true
}

/// Whether `value` lies in the lexical space of `data_type`.
fn lexical_space_admits(data_type: &str, value: &Vec<char>) -> (r: bool)
    ensures
        r == lexical_admits(data_type@, value@),
{
    let n = value.len();
    if crate::text::str_eq(data_type, "xs:string") || crate::text::str_eq(data_type, "xs:anySimpleType")
        || crate::text::str_eq(data_type, "xs:anyURI") {
        true
    } else if crate::text::str_eq(data_type, "xs:boolean") {
        chars_are(value, &vec!['t', 'r', 'u', 'e']) || chars_are(value, &vec!['f', 'a', 'l', 's', 'e'])
            || chars_are(value, &vec!['1']) || chars_are(value, &vec!['0'])
    } else if crate::text::str_eq(data_type, "xs:int") {
        assert(value@.subrange(0, n as int) =~= value@);
        int_in(value, 0, n).is_some()
    } else if crate::text::str_eq(data_type, "xs:integer") {
        assert(value@.subrange(0, n as int) =~= value@);
        integer_in(value, 0, n)
    } else if crate::text::str_eq(data_type, "xs:positiveInteger") {
        assert(value@.subrange(0, n as int) =~= value@);
        integer_in(value, 0, n) && !non_positive_in(value)
    } else if crate::text::str_eq(data_type, "xs:decimal") {
        crate::value::is_decimal(value)
    } else if crate::text::str_eq(data_type, "xs:double") || crate::text::str_eq(data_type, "xs:float") {
        chars_are(value, &vec!['I', 'N', 'F']) || chars_are(value, &vec!['-', 'I', 'N', 'F']) || chars_are(
            value,
            &vec!['N', 'a', 'N'],
        ) || float_admits(value)
    } else if crate::text::str_eq(data_type, "xs:dateTime") {
        date_time_admits(value)
    } else if crate::text::str_eq(data_type, "xs:language") {
        crate::value::is_language(value)
    } else {
        true
    }
}


// ---------------------------------------------------------------------------
// Violations and reports
// ---------------------------------------------------------------------------

/// A stable category for a schema-validation failure. Callers match on
/// codes rather than parse messages.
#[derive(Debug, Clone, Copy, PartialEq, Eq, Hash, Structural)]
#[non_exhaustive]
pub enum SchemaViolationCode {
    /// The root element is not a global root the schema declares.
    UnknownRoot,
    /// An element appeared where the schema does not declare it.
    UnexpectedElement,
    /// A required child occurred fewer times than its minimum.
    MissingRequiredChild,
    /// A child, or a choice, occurred more times than its maximum.
    TooManyOccurrences,
    /// Children appeared in an order the declared sequence does not permit.
    OutOfOrderChild,
    /// A required choice had no branch.
    MissingChoiceBranch,
    /// A required attribute was absent.
    MissingRequiredAttribute,
    /// An attribute is not declared on this element.
    UnknownAttribute,
    /// A value is outside its datatype's lexical space.
    InvalidLexicalValue,
    /// A value is not a member of the declared enumeration.
    InvalidEnumerationValue,
    /// A value does not satisfy the declared pattern.
    PatternMismatch,
    /// Character data appeared in element-only content.
    UnexpectedText,
    /// The root element is in a namespace the schema does not define.
    ForeignNamespace,
}

/// One schema-validation failure with its location.
#[derive(Debug, Clone, PartialEq, Eq)]
pub struct SchemaViolation {
    code: SchemaViolationCode,
    /// Slash-separated element path, for example `/Library/Property`.
    path: String,
    message: String,
}

impl SchemaViolation {
    pub closed spec fn spec_code(&self) -> SchemaViolationCode {
        self.code
    }

    pub closed spec fn spec_path(&self) -> Seq<char> {
        self.path@
    }

    pub closed spec fn spec_message(&self) -> Seq<char> {
        self.message@
    }

    pub fn code(&self) -> (r: SchemaViolationCode)
        ensures
            r == self.spec_code(),
    {
        self.code
    }

    pub fn path(&self) -> (r: &str)
        ensures
            r@ == self.spec_path(),
    {
        self.path.as_str()
    }

    pub fn message(&self) -> (r: &str)
        ensures
            r@ == self.spec_message(),
    {
        self.message.as_str()
    }
}

/// A finding: the code and the path of a violation.
pub type Finding = (SchemaViolationCode, Seq<char>);

pub open spec fn finding(code: SchemaViolationCode, path: Seq<char>) -> Seq<Finding> {
    seq![(code, path)]
}

/// The code and path of each violation, in order.
pub open spec fn findings_of(v: Seq<SchemaViolation>) -> Seq<Finding> {
    Seq::new(v.len(), |i: int| (v[i].spec_code(), v[i].spec_path()))
}

/// The outcome of validating a document against the ISO 23387 grammar.
#[derive(Debug, Clone, PartialEq, Eq)]
pub struct SchemaReport {
    violations: Vec<SchemaViolation>,
}

impl Default for SchemaReport {
    fn default() -> (r: Self)
        ensures
            r.spec_violations().len() == 0,
    {
        SchemaReport { violations: Vec::new() }
    }
}

impl SchemaReport {
    pub closed spec fn spec_violations(&self) -> Seq<SchemaViolation> {
        self.violations@
    }

    /// Whether the document satisfied every checked schema rule.
    pub fn is_conforming(&self) -> (r: bool)
        ensures
            r == (self.spec_violations().len() == 0),
    {
        self.violations.len() == 0
    }

    pub fn violations(&self) -> (r: &[SchemaViolation])
        ensures
            r@ == self.spec_violations(),
    {
        self.violations.as_slice()
    }
}

// ---------------------------------------------------------------------------
// What validation finds
// ---------------------------------------------------------------------------

/// The namespace of `xsi:` attributes.
pub const XSI_NAMESPACE: &'static str = "http://www.w3.org/2001/XMLSchema-instance";

/// Whether a simple value is checked with `preserve` white space: a plain
/// `xs:string` without pattern or enumeration. Every other datatype the
/// vocabulary uses collapses white space.
pub open spec fn preserves_space(data_type: Seq<char>, pattern: Option<Seq<char>>, enums: Seq<Seq<char>>) -> bool {
    data_type == "xs:string"@ && pattern is None && enums.len() == 0
}

/// The finding on a simple value: enumeration first, then pattern, then
/// lexical space; at most one.
pub open spec fn simple_findings(
    raw: Seq<char>,
    data_type: Seq<char>,
    pattern: Option<Seq<char>>,
    enums: Seq<Seq<char>>,
    path: Seq<char>,
) -> Seq<Finding> {
    let value = if preserves_space(data_type, pattern, enums) {
        raw
    } else {
        spec_collapse(raw)
    };
    if enums.len() > 0 && !enums.contains(value) {
        finding(SchemaViolationCode::InvalidEnumerationValue, path)
    } else if pattern is Some && !crate::pattern::pattern_matches(pattern->0, value) {
        finding(SchemaViolationCode::PatternMismatch, path)
    } else if !lexical_admits(data_type, value) {
        finding(SchemaViolationCode::InvalidLexicalValue, path)
    } else {
        Seq::empty()
    }
}

/// The enumeration an attribute rule restricts its value to.
pub open spec fn enum_views(rule: AttributeRule) -> Seq<Seq<char>> {
    if rule.data_type_names {
        data_type_name_values().map_values(|v: &'static str| v@)
    } else {
        Seq::empty()
    }
}

/// Whether the schema governs an attribute: namespace declarations and
/// `xml:` and `xsi:` attributes are left to their own specifications, and
/// only unqualified or ISO 23387 qualified attributes are schema attributes.
pub open spec fn governed(a: Attribute) -> bool {
    &&& !(a.spec_qname() == "xmlns"@ || a.spec_prefix() == Some("xmlns"@))
    &&& !(a.spec_namespace() == Some(XML_NAMESPACE@) || a.spec_namespace() == Some(XSI_NAMESPACE@))
    &&& (a.spec_namespace() is None || a.spec_namespace() == Some(NAMESPACE@))
}

/// The first attribute rule at or after `i` named `local`.
pub open spec fn rule_named(rules: Seq<AttributeRule>, local: Seq<char>, i: int) -> Option<AttributeRule>
    decreases rules.len() - i,
{
    if i < 0 || i >= rules.len() {
        None
    } else if rules[i].name@ == local {
        Some(rules[i])
    } else {
        rule_named(rules, local, i + 1)
    }
}

/// The findings on one attribute.
pub open spec fn attribute_finding(a: Attribute, d: int, path: Seq<char>) -> Seq<Finding> {
    if !governed(a) {
        Seq::empty()
    } else {
        match rule_named(attribute_rules(d), a.spec_local_name(), 0) {
            Some(rule) => simple_findings(
                a.spec_value(),
                rule.data_type@,
                match rule.pattern {
                    Some(p) => Some(p@),
                    None => None,
                },
                enum_views(rule),
                path + "/@"@ + a.spec_local_name(),
            ),
            None => finding(SchemaViolationCode::UnknownAttribute, path),
        }
    }
}

/// The findings on the first `n` attributes.
pub open spec fn attributes_findings(attrs: Seq<Attribute>, d: int, path: Seq<char>, n: int) -> Seq<Finding>
    decreases n,
{
    if n <= 0 || n > attrs.len() {
        Seq::empty()
    } else {
        attributes_findings(attrs, d, path, n - 1) + attribute_finding(attrs[n - 1], d, path)
    }
}

/// Whether an attribute that applies carries the name `name`.
pub open spec fn attribute_present(attrs: Seq<Attribute>, name: Seq<char>) -> bool {
    exists|i: int|
        0 <= i < attrs.len() && #[trigger] attrs[i].spec_local_name() == name && (attrs[i].spec_namespace() is None
            || attrs[i].spec_namespace() == Some(NAMESPACE@))
}

/// The missing required attributes among the first `k` rules.
pub open spec fn required_findings(attrs: Seq<Attribute>, rules: Seq<AttributeRule>, path: Seq<char>, k: int) -> Seq<Finding>
    decreases k,
{
    if k <= 0 || k > rules.len() {
        Seq::empty()
    } else {
        required_findings(attrs, rules, path, k - 1) + if rules[k - 1].required && !attribute_present(attrs, rules[k - 1].name@) {
            finding(SchemaViolationCode::MissingRequiredAttribute, path)
        } else {
            Seq::empty()
        }
    }
}

/// Whether a node carries character data that is not only white space.
pub open spec fn carries_text(n: Node) -> bool {
    match n {
        Node::Text(t) => exists|i: int| 0 <= i < t@.len() && !is_xml_space(#[trigger] t@[i]),
        Node::CData(t) => t@.len() > 0,
        _ => false,
    }
}

/// The finding on an element's own character data.
pub open spec fn text_findings(e: Element, d: int, path: Seq<char>) -> Seq<Finding> {
    if child_rules(d).len() > 0 {
        if exists|i: int| 0 <= i < e.spec_nodes().len() && #[trigger] carries_text(e.spec_nodes()[i]) {
            finding(SchemaViolationCode::UnexpectedText, path)
        } else {
            Seq::empty()
        }
    } else {
        match simple_type(d) {
            Some(t) => simple_findings(text_of(e.spec_nodes()), t@, None, Seq::empty(), path),
            None => Seq::empty(),
        }
    }
}

/// The first child rule at or after `i` named `local`, or -1.
pub open spec fn rule_position(rules: Seq<ChildRule>, local: Seq<char>, i: int) -> int
    decreases rules.len() - i,
{
    if i < 0 || i >= rules.len() {
        -1
    } else if rules[i].name@ == local {
        i
    } else {
        rule_position(rules, local, i + 1)
    }
}

/// Whether two child positions belong to the same repeating choice, where
/// interleaving is permitted.
pub open spec fn shares_group(rules: Seq<ChildRule>, left: int, right: int) -> bool {
    &&& 0 <= left < rules.len() && 0 <= right < rules.len()
    &&& rules[left].choice_group is Some
    &&& rules[left].choice_group == rules[right].choice_group
}

/// The state after walking the first `n` nodes of `e` against the child
/// rules of `d`: findings so far, occurrence counts per rule, and the
/// sequence cursor.
pub open spec fn walk(e: Element, d: int, path: Seq<char>, n: int) -> (Seq<Finding>, Seq<int>, int)
    decreases e, 0int, n,
{
    let rules = child_rules(d);
    if n <= 0 || n > e.spec_nodes().len() {
        (Seq::empty(), Seq::new(rules.len(), |i: int| 0int), 0int)
    } else {
        let (f, counts, cursor) = walk(e, d, path, n - 1);
        match e.spec_nodes()[n - 1] {
            Node::Element(c) => if c.spec_namespace() != Some(NAMESPACE@) {
                (f, counts, cursor)
            } else {
                let child_path = path + "/"@ + c.spec_local_name();
                let pos = rule_position(rules, c.spec_local_name(), 0);
                if pos < 0 {
                    (f + finding(SchemaViolationCode::UnexpectedElement, child_path), counts, cursor)
                } else {
                    let rule = rules[pos];
                    let ordered = !(pos < cursor && !shares_group(rules, pos, cursor));
                    let f1 = if ordered {
                        f
                    } else {
                        f + finding(SchemaViolationCode::OutOfOrderChild, child_path)
                    };
                    let counts1 = counts.update(pos, counts[pos] + 1);
                    let f2 = match rule.max_occurs {
                        Some(m) => if counts1[pos] == m + 1 {
                            f1 + finding(SchemaViolationCode::TooManyOccurrences, child_path)
                        } else {
                            f1
                        },
                        None => f1,
                    };
                    proof {
                        lemma_child_decreases(e, n - 1);
                    }
                    (
                        f2 + element_findings(c, rule.definition as int, child_path),
                        counts1,
                        if ordered {
                            pos
                        } else {
                            cursor
                        },
                    )
                }
            },
            _ => (f, counts, cursor),
        }
    }
}

/// Required children, outside choices, that occurred too few times, among
/// the first `k` rules.
pub open spec fn minimum_findings(rules: Seq<ChildRule>, counts: Seq<int>, path: Seq<char>, k: int) -> Seq<Finding>
    decreases k,
{
    if k <= 0 || k > rules.len() {
        Seq::empty()
    } else {
        minimum_findings(rules, counts, path, k - 1) + if rules[k - 1].choice_group is None && counts[k - 1]
            < rules[k - 1].min_occurs {
            finding(SchemaViolationCode::MissingRequiredChild, path)
        } else {
            Seq::empty()
        }
    }
}

/// The occurrences, among the first `k` rules, of children in choice `g`.
pub open spec fn group_total(rules: Seq<ChildRule>, counts: Seq<int>, g: int, k: int) -> int
    decreases k,
{
    if k <= 0 || k > rules.len() {
        0
    } else {
        group_total(rules, counts, g, k - 1) + if rules[k - 1].choice_group == Some(g as usize) {
            counts[k - 1]
        } else {
            0
        }
    }
}

/// The cardinality findings on the first `k` choices.
pub open spec fn group_findings(
    rules: Seq<ChildRule>,
    groups: Seq<ChoiceGroup>,
    counts: Seq<int>,
    path: Seq<char>,
    k: int,
) -> Seq<Finding>
    decreases k,
{
    if k <= 0 || k > groups.len() {
        Seq::empty()
    } else {
        let total = group_total(rules, counts, k - 1, rules.len() as int);
        let group = groups[k - 1];
        group_findings(rules, groups, counts, path, k - 1) + (if total < group.min_occurs {
            finding(SchemaViolationCode::MissingChoiceBranch, path)
        } else {
            Seq::empty()
        }) + match group.max_occurs {
            Some(m) => if total > m {
                finding(SchemaViolationCode::TooManyOccurrences, path)
            } else {
                Seq::empty()
            },
            None => Seq::empty(),
        }
    }
}

/// Every finding on an element validated against definition `d`, and,
/// depth first, on its descendants.
pub open spec fn element_findings(e: Element, d: int, path: Seq<char>) -> Seq<Finding>
    decreases e, 1int, 0int,
{
    let rules = child_rules(d);
    let (walked, counts, _cursor) = walk(e, d, path, e.spec_nodes().len() as int);
    attributes_findings(e.spec_attributes(), d, path, e.spec_attributes().len() as int) + required_findings(
        e.spec_attributes(),
        attribute_rules(d),
        path,
        attribute_rules(d).len() as int,
    ) + text_findings(e, d, path) + walked + minimum_findings(rules, counts, path, rules.len() as int)
        + group_findings(rules, choice_groups(d), counts, path, choice_groups(d).len() as int)
}

/// Every finding of schema validation on a document with this root.
pub open spec fn schema_findings(root: Element) -> Seq<Finding> {
    let path = "/"@ + root.spec_local_name();
    if root.spec_namespace() != Some(NAMESPACE@) {
        finding(SchemaViolationCode::ForeignNamespace, path)
    } else {
        match global_root(root.spec_local_name()) {
            None => finding(SchemaViolationCode::UnknownRoot, path),
            Some(d) => element_findings(root, d as int, path),
        }
    }
}


// ---------------------------------------------------------------------------
// Validation
// ---------------------------------------------------------------------------

fn push_violation(out: &mut Vec<SchemaViolation>, code: SchemaViolationCode, path: &str, message: String)
    ensures
        findings_of(final(out)@) == findings_of(old(out)@) + finding(code, path@),
{
    let violation = SchemaViolation { code, path: String::from_str(path), message };
    let ghost before = out@;
    out.push(violation);
    assert(findings_of(out@) =~= findings_of(before) + finding(code, path@)) by {
        assert forall|i: int| 0 <= i < before.len() implies findings_of(out@)[i] == findings_of(before)[i] by {
            assert(out@[i] == before[i]);
        }
    }
}

/// The texts, one after another.
pub open spec fn concat_all(parts: Seq<Seq<char>>) -> Seq<char>
    decreases parts.len(),
{
    if parts.len() == 0 {
        Seq::empty()
    } else {
        concat_all(parts.drop_last()) + parts.last()
    }
}

/// The texts with `sep` between each two.
pub open spec fn separated(values: Seq<Seq<char>>, sep: Seq<char>) -> Seq<char>
    decreases values.len(),
{
    if values.len() == 0 {
        Seq::empty()
    } else if values.len() == 1 {
        values[0]
    } else {
        separated(values.drop_last(), sep) + sep + values.last()
    }
}

/// The views of string slices.
pub open spec fn str_views(parts: Seq<&str>) -> Seq<Seq<char>> {
    parts.map_values(|p: &str| p@)
}

/// The parts, one after another.
fn concat(parts: Vec<&str>) -> (r: String)
    ensures
        r@ == concat_all(str_views(parts@)),
{
    let mut text = String::new();
    let mut i: usize = 0;
    while i < parts.len()
        invariant
            i <= parts@.len(),
            text@ == concat_all(str_views(parts@.take(i as int))),
        decreases parts.len() - i,
    {
        proof {
            assert(str_views(parts@.take(i + 1)).drop_last() =~= str_views(parts@.take(i as int)));
            assert(str_views(parts@.take(i + 1)).last() == parts@[i as int]@);
        }
        text.append(parts[i]);
        i = i + 1;
    }
    assert(parts@.take(parts@.len() as int) =~= parts@);
    text
}

/// Whether `v` is one of `values`.
fn member(v: &Vec<char>, values: &Vec<&str>) -> (r: bool)
    ensures
        r == values@.map_values(|x: &str| x@).contains(v@),
{
    let ghost views = values@.map_values(|x: &str| x@);
    let mut i: usize = 0;
    while i < values.len()
        invariant
            i <= values@.len(),
            views == values@.map_values(|x: &str| x@),
            forall|j: int| 0 <= j < i ==> views[j] != v@,
        decreases values.len() - i,
    {
        let candidate = crate::text::chars_of(values[i]);
        if chars_are(v, &candidate) {
            assert(views[i as int] == v@);
            return true;
        }
        i = i + 1;
    }
    false
}

/// `values` joined with `, `.
fn joined(values: &Vec<&str>) -> (r: String)
    ensures
        r@ == separated(str_views(values@), ", "@),
{
    let mut text = String::new();
    let mut i: usize = 0;
    while i < values.len()
        invariant
            i <= values@.len(),
            text@ == separated(str_views(values@.take(i as int)), ", "@),
        decreases values.len() - i,
    {
        proof {
            let next = str_views(values@.take(i + 1));
            assert(next.drop_last() =~= str_views(values@.take(i as int)));
            assert(next.last() == values@[i as int]@);
            if i == 0 {
                assert(next.len() == 1);
                assert(str_views(values@.take(0)) =~= Seq::<Seq<char>>::empty());
            }
        }
        if i > 0 {
            text.append(", ");
        }
        text.append(values[i]);
        proof {
            if i == 0 {
                assert(text@ =~= values@[0]@);
            }
        }
        i = i + 1;
    }
    assert(values@.take(values@.len() as int) =~= values@);
    text
}

/// Checks a simple value against its datatype, pattern and enumeration.
fn validate_simple_value(
    raw: &str,
    data_type: &str,
    pattern: Option<&str>,
    enum_values: &Vec<&str>,
    path: &str,
    out: &mut Vec<SchemaViolation>,
)
    ensures
        findings_of(final(out)@) == findings_of(old(out)@) + simple_findings(
            raw@,
            data_type@,
            opt_str_view(pattern),
            enum_values@.map_values(|x: &str| x@),
            path@,
        ),
{
    let ghost enums = enum_values@.map_values(|x: &str| x@);
    let preserve = crate::text::str_eq(data_type, "xs:string") && pattern.is_none() && enum_values.len() == 0;
    assert(preserve == preserves_space(data_type@, opt_str_view(pattern), enums));
    let value: Vec<char> = if preserve {
        crate::text::chars_of(raw)
    } else {
        crate::text::collapse_whitespace(raw)
    };
    let shown = crate::text::string_from_chars(&value);
    if enum_values.len() > 0 && !member(&value, enum_values) {
        let listed = joined(enum_values);
        let message = concat(vec!["`", shown.as_str(), "` is not one of the permitted values (", listed.as_str(), ")"]);
        push_violation(out, SchemaViolationCode::InvalidEnumerationValue, path, message);
        return;
    }
    if let Some(p) = pattern {
        if !crate::pattern::matches_pattern(p, shown.as_str()) {
            let message = concat(vec!["`", shown.as_str(), "` does not match the declared pattern"]);
            push_violation(out, SchemaViolationCode::PatternMismatch, path, message);
            return;
        }
    }
    if !lexical_space_admits(data_type, &value) {
        let message = concat(vec!["`", shown.as_str(), "` is not a valid `", data_type, "` value"]);
        push_violation(out, SchemaViolationCode::InvalidLexicalValue, path, message);
    } else {
        assert(findings_of(out@) =~= findings_of(old(out)@) + Seq::<Finding>::empty());
    }
}

/// Whether an optional namespace is `wanted`.
fn namespace_is(namespace: Option<&str>, wanted: &str) -> (r: bool)
    ensures
        r == (opt_str_view(namespace) == Some(wanted@)),
{
    match namespace {
        Some(n) => crate::text::str_eq(n, wanted),
        None => false,
    }
}

fn governs(a: &Attribute) -> (r: bool)
    ensures
        r == governed(*a),
{
    let prefixed = match a.prefix() {
        Some(p) => crate::text::str_eq(p, "xmlns"),
        None => false,
    };
    if crate::text::str_eq(a.qname(), "xmlns") || prefixed {
        return false;
    }
    if namespace_is(a.namespace_uri(), XML_NAMESPACE) || namespace_is(a.namespace_uri(), XSI_NAMESPACE) {
        return false;
    }
    a.namespace_uri().is_none() || namespace_is(a.namespace_uri(), NAMESPACE)
}

/// The position of the first attribute rule named `local`.
fn find_attribute_rule(rules: &Vec<AttributeRule>, local: &str) -> (r: Option<usize>)
    ensures
        match r {
            Some(i) => i < rules@.len() && rule_named(rules@, local@, 0) == Some(rules@[i as int]),
            None => rule_named(rules@, local@, 0) is None,
        },
{
    let mut i: usize = 0;
    while i < rules.len()
        invariant
            i <= rules@.len(),
            rule_named(rules@, local@, 0) == rule_named(rules@, local@, i as int),
        decreases rules.len() - i,
    {
        if crate::text::str_eq(rules[i].name, local) {
            return Some(i);
        }
        i = i + 1;
    }
    None
}

/// Whether an unqualified or ISO 23387 qualified attribute is named `name`.
fn present(attrs: &[Attribute], name: &str) -> (r: bool)
    ensures
        r == attribute_present(attrs@, name@),
{
    let mut i: usize = 0;
    while i < attrs.len()
        invariant
            i <= attrs@.len(),
            forall|j: int|
                0 <= j < i ==> !(#[trigger] attrs@[j].spec_local_name() == name@ && (attrs@[j].spec_namespace() is None
                    || attrs@[j].spec_namespace() == Some(NAMESPACE@))),
        decreases attrs.len() - i,
    {
        let a = &attrs[i];
        if crate::text::str_eq(a.local_name(), name) && (a.namespace_uri().is_none() || namespace_is(a.namespace_uri(), NAMESPACE)) {
            return true;
        }
        i = i + 1;
    }
    false
}

/// `path` followed by `/@` and an attribute's local name.
fn attribute_path(path: &str, local: &str) -> (r: String)
    ensures
        r@ == path@ + "/@"@ + local@,
{
    let mut p = String::from_str(path);
    p.append("/@");
    p.append(local);
    p
}

fn validate_attributes(element: &Element, d: usize, path: &str, out: &mut Vec<SchemaViolation>)
    ensures
        findings_of(final(out)@) == findings_of(old(out)@) + attributes_findings(
            element.spec_attributes(),
            d as int,
            path@,
            element.spec_attributes().len() as int,
        ) + required_findings(element.spec_attributes(), attribute_rules(d as int), path@, attribute_rules(d as int).len() as int),
{
    let ghost start = findings_of(out@);
    let attrs = element.attributes();
    let rules = attribute_rules_of(d);
    let mut i: usize = 0;
    assert(start =~= start + attributes_findings(attrs@, d as int, path@, 0));
    while i < attrs.len()
        invariant
            i <= attrs@.len(),
            attrs@ == element.spec_attributes(),
            rules@ == attribute_rules(d as int),
            findings_of(out@) == start + attributes_findings(attrs@, d as int, path@, i as int),
        decreases attrs.len() - i,
    {
        let a = &attrs[i];
        let ghost before = findings_of(out@);
        if governs(a) {
            match find_attribute_rule(&rules, a.local_name()) {
                Some(k) => {
                    let rule = rules[k];
                    let target = attribute_path(path, a.local_name());
                    let enum_values: Vec<&str> = if rule.data_type_names {
                        data_type_name_values_of()
                    } else {
                        Vec::new()
                    };
                    assert(enum_values@.map_values(|x: &str| x@) =~= enum_views(rule));
                    validate_simple_value(a.value(), rule.data_type, rule.pattern, &enum_values, target.as_str(), out);
                    assert(opt_str_view(rule.pattern) == match rule.pattern {
                        Some(p) => Some(p@),
                        None => None::<Seq<char>>,
                    });
                },
                None => {
                    let handle = handle_of(d);
                    let message = concat(vec!["attribute `", a.local_name(), "` is not declared on `", handle, "`"]);
                    push_violation(out, SchemaViolationCode::UnknownAttribute, path, message);
                },
            }
        } else {
            assert(before =~= before + Seq::<Finding>::empty());
        }
        assert(findings_of(out@) =~= start + attributes_findings(attrs@, d as int, path@, i + 1));
        i = i + 1;
    }
    let ghost middle = findings_of(out@);
    let mut k: usize = 0;
    assert(middle =~= middle + required_findings(attrs@, rules@, path@, 0));
    while k < rules.len()
        invariant
            k <= rules@.len(),
            attrs@ == element.spec_attributes(),
            rules@ == attribute_rules(d as int),
            findings_of(out@) == middle + required_findings(attrs@, rules@, path@, k as int),
        decreases rules.len() - k,
    {
        let rule = rules[k];
        let ghost before = findings_of(out@);
        if rule.required && !present(attrs, rule.name) {
            let message = concat(vec!["required attribute `", rule.name, "` is missing"]);
            push_violation(out, SchemaViolationCode::MissingRequiredAttribute, path, message);
        } else {
            assert(before =~= before + Seq::<Finding>::empty());
        }
        assert(findings_of(out@) =~= middle + required_findings(attrs@, rules@, path@, k + 1));
        k = k + 1;
    }
}


/// Whether `t` holds a character other than XML white space.
fn has_non_space(t: &str) -> (r: bool)
    ensures
        r == exists|i: int| 0 <= i < t@.len() && !is_xml_space(#[trigger] t@[i]),
{
    let chars = crate::text::chars_of(t);
    let mut i: usize = 0;
    while i < chars.len()
        invariant
            i <= chars@.len(),
            chars@ == t@,
            forall|j: int| 0 <= j < i ==> is_xml_space(#[trigger] chars@[j]),
        decreases chars.len() - i,
    {
        if !crate::text::xml_space(chars[i]) {
            assert(!is_xml_space(t@[i as int]));
            return true;
        }
        i = i + 1;
    }
    false
}

/// Whether a node carries character data that is not only white space.
fn carries_text_exec(node: &Node) -> (r: bool)
    ensures
        r == carries_text(*node),
{
    match node {
        Node::Text(t) => has_non_space(t.as_str()),
        Node::CData(t) => crate::text::chars_of(t.as_str()).len() > 0,
        _ => false,
    }
}

/// Whether some node carries character data.
fn any_text(nodes: &[Node]) -> (r: bool)
    ensures
        r == exists|i: int| 0 <= i < nodes@.len() && #[trigger] carries_text(nodes@[i]),
{
    let mut i: usize = 0;
    while i < nodes.len()
        invariant
            i <= nodes@.len(),
            forall|j: int| 0 <= j < i ==> !#[trigger] carries_text(nodes@[j]),
        decreases nodes.len() - i,
    {
        if carries_text_exec(&nodes[i]) {
            return true;
        }
        i = i + 1;
    }
    false
}

/// The position of the first child rule named `local`.
fn child_rule_position(rules: &Vec<ChildRule>, local: &str) -> (r: Option<usize>)
    ensures
        match r {
            Some(i) => i < rules@.len() && rule_position(rules@, local@, 0) == i,
            None => rule_position(rules@, local@, 0) == -1,
        },
{
    let mut i: usize = 0;
    while i < rules.len()
        invariant
            i <= rules@.len(),
            rule_position(rules@, local@, 0) == rule_position(rules@, local@, i as int),
        decreases rules.len() - i,
    {
        if crate::text::str_eq(rules[i].name, local) {
            return Some(i);
        }
        i = i + 1;
    }
    None
}

fn shares_group_exec(rules: &Vec<ChildRule>, left: usize, right: usize) -> (r: bool)
    ensures
        r == shares_group(rules@, left as int, right as int),
{
    if left >= rules.len() || right >= rules.len() {
        return false;
    }
    match (rules[left].choice_group, rules[right].choice_group) {
        (Some(a), Some(b)) => a == b,
        _ => false,
    }
}

/// `path`, a slash and a local name.
fn child_path_of(path: &str, local: &str) -> (r: String)
    ensures
        r@ == path@ + "/"@ + local@,
{
    let mut p = String::from_str(path);
    p.append("/");
    p.append(local);
    p
}

/// The names of the rules, among the first `n`, in choice `g`.
pub open spec fn group_members(rules: Seq<ChildRule>, g: usize, n: int) -> Seq<Seq<char>>
    decreases n,
{
    if n <= 0 || n > rules.len() {
        Seq::empty()
    } else if rules[n - 1].choice_group == Some(g) {
        group_members(rules, g, n - 1).push(rules[n - 1].name@)
    } else {
        group_members(rules, g, n - 1)
    }
}

/// The names of the rules in choice `g`, joined with ` | `.
fn members_of(rules: &Vec<ChildRule>, g: usize) -> (r: String)
    ensures
        r@ == separated(group_members(rules@, g, rules@.len() as int), " | "@),
{
    let mut text = String::new();
    let mut first = true;
    let mut i: usize = 0;
    while i < rules.len()
        invariant
            i <= rules@.len(),
            first == (group_members(rules@, g, i as int).len() == 0),
            text@ == separated(group_members(rules@, g, i as int), " | "@),
        decreases rules.len() - i,
    {
        let ghost before = group_members(rules@, g, i as int);
        match rules[i].choice_group {
            Some(x) => if x == g {
                if !first {
                    text.append(" | ");
                }
                text.append(rules[i].name);
                first = false;
                proof {
                    let after = before.push(rules@[i as int].name@);
                    assert(after.drop_last() =~= before);
                    if before.len() == 0 {
                        assert(text@ =~= after[0]);
                    }
                }
            },
            None => {},
        }
        i = i + 1;
    }
    text
}

/// The count, capped just above the `u32` range, of children in choice `g`.
fn group_count(rules: &Vec<ChildRule>, counts: &Vec<usize>, g: usize) -> (r: u64)
    requires
        counts@.len() == rules@.len(),
    ensures
        r as int == if group_total(rules@, counts@.map_values(|c: usize| c as int), g as int, rules@.len() as int)
            > 0x1_0000_0000 {
            0x1_0000_0000
        } else {
            group_total(rules@, counts@.map_values(|c: usize| c as int), g as int, rules@.len() as int)
        },
{
    let ghost cs = counts@.map_values(|c: usize| c as int);
    let mut total: u64 = 0;
    let mut i: usize = 0;
    while i < rules.len()
        invariant
            i <= rules@.len(),
            counts@.len() == rules@.len(),
            cs == counts@.map_values(|c: usize| c as int),
            group_total(rules@, cs, g as int, i as int) >= 0,
            total as int == if group_total(rules@, cs, g as int, i as int) > 0x1_0000_0000 {
                0x1_0000_0000
            } else {
                group_total(rules@, cs, g as int, i as int)
            },
        decreases rules.len() - i,
    {
        let member = match rules[i].choice_group {
            Some(x) => x == g,
            None => false,
        };
        assert(member == (rules@[i as int].choice_group == Some(g)));
        if member {
            let c = counts[i];
            assert(cs[i as int] == c as int);
            let c64 = c as u64;
            if c64 >= 0x1_0000_0000 || total + c64 >= 0x1_0000_0000 {
                total = 0x1_0000_0000;
            } else {
                total = total + c64;
            }
        }
        i = i + 1;
    }
    total
}

/// Validates an element against definition `d`: attributes, content, then
/// each ISO 23387 child against its own definition, depth first.
fn validate_element(element: &Element, d: usize, path: &str, out: &mut Vec<SchemaViolation>)
    ensures
        findings_of(final(out)@) == findings_of(old(out)@) + element_findings(*element, d as int, path@),
    decreases element,
{
    let ghost start = findings_of(out@);
    validate_attributes(element, d, path, out);
    let ghost after_attributes = findings_of(out@);
    let rules = child_rules_of(d);
    let handle = handle_of(d);
    let nodes = element.nodes();
    if rules.len() > 0 {
        if any_text(nodes) {
            let message = concat(vec!["`", handle, "` has element-only content but carries character data"]);
            push_violation(out, SchemaViolationCode::UnexpectedText, path, message);
        } else {
            assert(findings_of(out@) =~= after_attributes + Seq::<Finding>::empty());
        }
    } else {
        match simple_type_of(d) {
            Some(t) => {
                let text = element.direct_text();
                let no_values: Vec<&str> = Vec::new();
                validate_simple_value(text.as_str(), t, None, &no_values, path, out);
                assert(no_values@.map_values(|x: &str| x@) =~= Seq::<Seq<char>>::empty());
            },
            None => {
                assert(findings_of(out@) =~= after_attributes + Seq::<Finding>::empty());
            },
        }
    }
    assert(findings_of(out@) =~= after_attributes + text_findings(*element, d as int, path@));
    let ghost after_text = findings_of(out@);
    let mut counts: Vec<usize> = Vec::new();
    while counts.len() < rules.len()
        invariant
            counts@.len() <= rules@.len(),
            forall|j: int| 0 <= j < counts@.len() ==> counts@[j] == 0,
        decreases rules.len() - counts.len(),
    {
        counts.push(0);
    }
    let mut cursor: usize = 0;
    let mut i: usize = 0;
    assert(counts@.map_values(|c: usize| c as int) =~= walk(*element, d as int, path@, 0).1);
    assert(after_text =~= after_text + walk(*element, d as int, path@, 0).0);
    while i < nodes.len()
        invariant
            i <= nodes@.len(),
            nodes@ == element.spec_nodes(),
            rules@ == child_rules(d as int),
            counts@.len() == rules@.len(),
            counts@.map_values(|c: usize| c as int) == walk(*element, d as int, path@, i as int).1,
            cursor as int == walk(*element, d as int, path@, i as int).2,
            forall|j: int| 0 <= j < counts@.len() ==> #[trigger] counts@[j] <= i,
            findings_of(out@) == after_text + walk(*element, d as int, path@, i as int).0,
        decreases nodes.len() - i,
    {
        let ghost state = walk(*element, d as int, path@, i as int);
        match &nodes[i] {
            Node::Element(child) => {
                if !namespace_is(child.namespace_uri(), NAMESPACE) {
                    assert(walk(*element, d as int, path@, i + 1) == state);
                } else {
                    let local = child.local_name();
                    let child_path = child_path_of(path, local);
                    match child_rule_position(&rules, local) {
                        None => {
                            let message = concat(vec!["`", local, "` is not declared as a child of `", handle, "`"]);
                            push_violation(out, SchemaViolationCode::UnexpectedElement, child_path.as_str(), message);
                            assert(findings_of(out@) =~= after_text + walk(*element, d as int, path@, i + 1).0);
                        },
                        Some(pos) => {
                            let rule = rules[pos];
                            if pos < cursor && !shares_group_exec(&rules, pos, cursor) {
                                let message = concat(
                                    vec!["`", local, "` appears after content the schema declares later in the sequence"],
                                );
                                push_violation(out, SchemaViolationCode::OutOfOrderChild, child_path.as_str(), message);
                            } else {
                                cursor = pos;
                            }
                            let ghost f1 = findings_of(out@);
                            let count = counts[pos] + 1;
                            counts.set(pos, count);
                            assert(counts@.map_values(|c: usize| c as int) =~= state.1.update(pos as int, state.1[pos as int] + 1));
                            match rule.max_occurs {
                                Some(m) => {
                                    if count as u64 == m as u64 + 1 {
                                        let shown = crate::codec::decimal(m as usize);
                                        let message = concat(
                                            vec!["`", local, "` occurs more than the permitted ", shown.as_str(), " time(s)"],
                                        );
                                        push_violation(out, SchemaViolationCode::TooManyOccurrences, child_path.as_str(), message);
                                    } else {
                                        assert(findings_of(out@) =~= f1 + Seq::<Finding>::empty());
                                    }
                                },
                                None => {
                                    assert(findings_of(out@) =~= f1 + Seq::<Finding>::empty());
                                },
                            }
                            proof {
                                lemma_child_decreases(*element, i as int);
                            }
                            validate_element(child, rule.definition, child_path.as_str(), out);
                            assert(findings_of(out@) =~= after_text + walk(*element, d as int, path@, i + 1).0);
                        },
                    }
                }
            },
            _ => {
                assert(walk(*element, d as int, path@, i + 1) == state);
            },
        }
        i = i + 1;
    }
    let ghost walked = walk(*element, d as int, path@, nodes@.len() as int);
    let ghost cs = walked.1;
    let ghost after_walk = findings_of(out@);
    let mut k: usize = 0;
    assert(after_walk =~= after_walk + minimum_findings(rules@, cs, path@, 0));
    while k < rules.len()
        invariant
            k <= rules@.len(),
            rules@ == child_rules(d as int),
            counts@.len() == rules@.len(),
            counts@.map_values(|c: usize| c as int) == cs,
            findings_of(out@) == after_walk + minimum_findings(rules@, cs, path@, k as int),
        decreases rules.len() - k,
    {
        let rule = rules[k];
        let ghost before = findings_of(out@);
        assert(cs[k as int] == counts@[k as int] as int);
        if rule.choice_group.is_none() && counts[k] < rule.min_occurs as usize {
            let shown_min = crate::codec::decimal(rule.min_occurs as usize);
            let shown_count = crate::codec::decimal(counts[k]);
            let message = concat(
                vec![
                    "`",
                    handle,
                    "` requires at least ",
                    shown_min.as_str(),
                    " `",
                    rule.name,
                    "` child element(s) but found ",
                    shown_count.as_str(),
                ],
            );
            push_violation(out, SchemaViolationCode::MissingRequiredChild, path, message);
        } else {
            assert(before =~= before + Seq::<Finding>::empty());
        }
        assert(findings_of(out@) =~= after_walk + minimum_findings(rules@, cs, path@, k + 1));
        k = k + 1;
    }
    let groups = choice_groups_of(d);
    let ghost after_minimums = findings_of(out@);
    let mut g: usize = 0;
    assert(after_minimums =~= after_minimums + group_findings(rules@, groups@, cs, path@, 0));
    while g < groups.len()
        invariant
            g <= groups@.len(),
            rules@ == child_rules(d as int),
            groups@ == choice_groups(d as int),
            counts@.len() == rules@.len(),
            counts@.map_values(|c: usize| c as int) == cs,
            findings_of(out@) == after_minimums + group_findings(rules@, groups@, cs, path@, g as int),
        decreases groups.len() - g,
    {
        let group = groups[g];
        let total = group_count(&rules, &counts, g);
        let ghost exact = group_total(rules@, cs, g as int, rules@.len() as int);
        let ghost before = findings_of(out@);
        let members = members_of(&rules, g);
        let shown_total = crate::codec::decimal(total as usize);
        if total < group.min_occurs as u64 {
            let shown_min = crate::codec::decimal(group.min_occurs as usize);
            let message = concat(
                vec![
                    "`",
                    handle,
                    "` requires at least ",
                    shown_min.as_str(),
                    " of (",
                    members.as_str(),
                    ") but found ",
                    shown_total.as_str(),
                ],
            );
            push_violation(out, SchemaViolationCode::MissingChoiceBranch, path, message);
        } else {
            assert(before =~= before + Seq::<Finding>::empty());
        }
        let ghost middle = findings_of(out@);
        match group.max_occurs {
            Some(m) => {
                if total > m as u64 {
                    let shown_max = crate::codec::decimal(m as usize);
                    let message = concat(
                        vec![
                            "`",
                            handle,
                            "` permits at most ",
                            shown_max.as_str(),
                            " of (",
                            members.as_str(),
                            ") but found ",
                            shown_total.as_str(),
                        ],
                    );
                    push_violation(out, SchemaViolationCode::TooManyOccurrences, path, message);
                } else {
                    assert(middle =~= middle + Seq::<Finding>::empty());
                }
            },
            None => {
                assert(middle =~= middle + Seq::<Finding>::empty());
            },
        }
        assert(findings_of(out@) =~= after_minimums + group_findings(rules@, groups@, cs, path@, g + 1));
        g = g + 1;
    }
    assert(findings_of(out@) =~= start + element_findings(*element, d as int, path@));
}

impl Document {
    /// Validates this document against the ISO 23387 element grammar: a
    /// declared root, child sequences and cardinalities, attribute presence,
    /// and datatype facets. This is stricter than [`Document::validate`].
    pub fn validate_schema(&self) -> (r: SchemaReport)
        ensures
            findings_of(r.spec_violations()) == schema_findings(self.spec_root()),
    {
        let root = self.root();
        let mut out: Vec<SchemaViolation> = Vec::new();
        let path = child_path_of("", root.local_name());
        proof {
            reveal_strlit("");
            assert(path@ =~= "/"@ + root.spec_local_name());
        }
        assert(findings_of(out@) =~= Seq::<Finding>::empty());
        if !namespace_is(root.namespace_uri(), NAMESPACE) {
            let shown = match root.namespace_uri() {
                Some(ns) => crate::model::debug_quoted(ns),
                None => crate::model::debug_quoted("(none)"),
            };
            let message = concat(vec!["root element is in namespace ", shown.as_str(), ", not the ISO 23387 namespace"]);
            push_violation(&mut out, SchemaViolationCode::ForeignNamespace, path.as_str(), message);
            assert(findings_of(out@) =~= schema_findings(*root));
            return SchemaReport { violations: out };
        }
        match global_root_of(root.local_name()) {
            None => {
                let message = concat(vec!["`", root.local_name(), "` is not a global root element declared by the schema"]);
                push_violation(&mut out, SchemaViolationCode::UnknownRoot, path.as_str(), message);
                assert(findings_of(out@) =~= schema_findings(*root));
            },
            Some(d) => {
                validate_element(root, d, path.as_str(), &mut out);
                assert(findings_of(out@) =~= schema_findings(*root));
            },
        }
        SchemaReport { violations: out }
    }
}


} // verus!
