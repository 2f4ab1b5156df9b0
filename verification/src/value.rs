//! ISO 23387 lexical value contracts.

use vstd::prelude::*;

use crate::text::{
    alnum, alpha, chars_of, collapse_whitespace, digit, hex, is_alnum, is_alpha, is_digit, is_hex,
    is_xml_char, spec_collapse, str_eq, string_from_chars, xml_char,
};

verus! {

/// Lexical contracts checked by [`ValueError`].
#[derive(Debug, Clone, Copy, PartialEq, Eq, Hash)]
#[non_exhaustive]
pub enum ValueErrorKind {
    /// ISO 23387 `GuidType`.
    Guid,
    /// XML Schema `language`.
    Language,
    /// ISO 23387 `RationalType`.
    Rational,
    /// XML Schema `decimal`.
    Decimal,
    /// XML Schema `positiveInteger`.
    PositiveInteger,
    /// A semantically identified reference with neither GUID nor URI.
    EmptyReference,
    /// XML Schema `dateTime`.
    CreationDate,
    /// XML Schema `anyURI`.
    Uri,
    /// XML Schema `nonNegativeInteger`.
    NonNegativeInteger,
    /// XML Schema `base64Binary`.
    Base64Binary,
}

/// The name of a lexical contract, as written in messages.
pub open spec fn kind_name(kind: ValueErrorKind) -> Seq<char> {
    match kind {
        ValueErrorKind::Guid => "Guid"@,
        ValueErrorKind::Language => "Language"@,
        ValueErrorKind::Rational => "Rational"@,
        ValueErrorKind::Decimal => "Decimal"@,
        ValueErrorKind::PositiveInteger => "PositiveInteger"@,
        ValueErrorKind::EmptyReference => "EmptyReference"@,
        ValueErrorKind::CreationDate => "CreationDate"@,
        ValueErrorKind::Uri => "Uri"@,
        ValueErrorKind::NonNegativeInteger => "NonNegativeInteger"@,
        ValueErrorKind::Base64Binary => "Base64Binary"@,
    }
}

impl ValueErrorKind {
    /// The variant's name, as written in messages.
    pub fn name(self) -> (r: &'static str)
        ensures
            r@ == kind_name(self),
    {
        match self {
            ValueErrorKind::Guid => "Guid",
            ValueErrorKind::Language => "Language",
            ValueErrorKind::Rational => "Rational",
            ValueErrorKind::Decimal => "Decimal",
            ValueErrorKind::PositiveInteger => "PositiveInteger",
            ValueErrorKind::EmptyReference => "EmptyReference",
            ValueErrorKind::CreationDate => "CreationDate",
            ValueErrorKind::Uri => "Uri",
            ValueErrorKind::NonNegativeInteger => "NonNegativeInteger",
            ValueErrorKind::Base64Binary => "Base64Binary",
        }
    }
}

/// A value rejected by an ISO 23387 lexical contract.
#[derive(Debug, Clone, PartialEq, Eq)]
pub struct ValueError {
    kind: ValueErrorKind,
    value: String,
}

impl ValueError {
    pub closed spec fn spec_kind(&self) -> ValueErrorKind {
        self.kind
    }

    /// The rejected text (after white-space collapsing, where the contract applies it).
    pub closed spec fn spec_value(&self) -> Seq<char> {
        self.value@
    }

    pub(crate) fn new(kind: ValueErrorKind, value: String) -> (r: Self)
        ensures
            r.spec_kind() == kind,
            r.spec_value() == value@,
    {
        ValueError { kind, value }
    }

    /// The failed lexical contract.
    pub fn kind(&self) -> (r: ValueErrorKind)
        ensures
            r == self.spec_kind(),
    {
        self.kind
    }

    /// The rejected text.
    pub fn value(&self) -> (r: &str)
        ensures
            r@ == self.spec_value(),
    {
        self.value.as_str()
    }

    /// `invalid <kind> value <value>`.
    pub fn message(&self) -> (r: String)
        ensures
            r@ == "invalid "@ + kind_name(self.spec_kind()) + " value "@ + self.spec_value(),
    {
        let head = String::from_str("invalid ");
        head.concat(self.kind.name()).concat(" value ").concat(self.value.as_str())
    }
}


// ---------------------------------------------------------------------------
// GUID
// ---------------------------------------------------------------------------

pub open spec fn guid_char_ok(s: Seq<char>, i: int) -> bool {
    if i == 8 || i == 13 || i == 18 || i == 23 {
        s[i] == '-'
    } else {
        is_hex(s[i])
    }
}

/// ISO 23387 `GuidType`: 8-4-4-4-12 hexadecimal digits separated by hyphens.
pub open spec fn spec_is_guid(s: Seq<char>) -> bool {
    s.len() == 36 && forall|i: int| 0 <= i < 36 ==> #[trigger] guid_char_ok(s, i)
}

pub fn is_guid(v: &Vec<char>) -> (r: bool)
    ensures
        r == spec_is_guid(v@),
{
    if v.len() != 36 {
        return false;
    }
    let mut i: usize = 0;
    while i < 36
        invariant
            v@.len() == 36,
            i <= 36,
            forall|k: int| 0 <= k < i ==> #[trigger] guid_char_ok(v@, k),
        decreases 36 - i,
    {
        let ok = if i == 8 || i == 13 || i == 18 || i == 23 {
            v[i] == '-'
        } else {
            hex(v[i])
        };
        if !ok {
            assert(!guid_char_ok(v@, i as int));
            return false;
        }
        i = i + 1;
    }
    true
}

// ---------------------------------------------------------------------------
// Language
// ---------------------------------------------------------------------------

/// Length of the run of non-hyphen characters ending at `i`.
pub open spec fn run_len(s: Seq<char>, i: int) -> int
    decreases i + 1,
{
    if i < 0 {
        0
    } else if s[i] == '-' {
        0
    } else {
        run_len(s, i - 1) + 1
    }
}

pub open spec fn language_char_ok(s: Seq<char>, i: int) -> bool {
    &&& is_alnum(s[i]) || s[i] == '-'
    &&& run_len(s, i) <= 8
    &&& run_len(s, i) == i + 1 ==> is_alpha(s[i])
    &&& s[i] == '-' ==> (i > 0 && s[i - 1] != '-' && i + 1 < s.len())
}

/// XML Schema `language`: `[a-zA-Z]{1,8}(-[a-zA-Z0-9]{1,8})*`.
pub open spec fn spec_is_language(s: Seq<char>) -> bool {
    s.len() > 0 && forall|i: int| 0 <= i < s.len() ==> #[trigger] language_char_ok(s, i)
}

pub fn is_language(v: &Vec<char>) -> (r: bool)
    ensures
        r == spec_is_language(v@),
{
    if v.len() == 0 {
        return false;
    }
    let mut run: usize = 0;
    let mut i: usize = 0;
    while i < v.len()
        invariant
            i <= v@.len(),
            run == run_len(v@, i - 1),
            run <= 8,
            forall|k: int| 0 <= k < i ==> #[trigger] language_char_ok(v@, k),
        decreases v.len() - i,
    {
        let c = v[i];
        if c == '-' {
            if i == 0 || v[i - 1] == '-' || i + 1 >= v.len() {
                assert(!language_char_ok(v@, i as int));
                return false;
            }
            run = 0;
        } else {
            if !alnum(c) || run >= 8 || (run == i && !alpha(c)) {
                assert(!language_char_ok(v@, i as int));
                return false;
            }
            run = run + 1;
        }
        assert(language_char_ok(v@, i as int));
        i = i + 1;
    }
    true
}

// ---------------------------------------------------------------------------
// Numeric lexical spaces
// ---------------------------------------------------------------------------

pub open spec fn strip_sign(s: Seq<char>) -> Seq<char> {
    if s.len() > 0 && (s[0] == '+' || s[0] == '-') {
        s.drop_first()
    } else {
        s
    }
}

pub open spec fn strip_plus(s: Seq<char>) -> Seq<char> {
    if s.len() > 0 && s[0] == '+' {
        s.drop_first()
    } else {
        s
    }
}

pub open spec fn all_digits(s: Seq<char>) -> bool {
    forall|i: int| 0 <= i < s.len() ==> #[trigger] is_digit(s[i])
}

pub open spec fn decimal_char_ok(s: Seq<char>, i: int) -> bool {
    is_digit(s[i]) || s[i] == '.'
}

/// The unsigned part of an XML Schema `decimal`: digits with at most one
/// point and at least one digit.
pub open spec fn spec_is_decimal_body(b: Seq<char>) -> bool {
    &&& forall|i: int| 0 <= i < b.len() ==> #[trigger] decimal_char_ok(b, i)
    &&& forall|i: int, j: int| 0 <= i < j < b.len() && b[i] == '.' ==> b[j] != '.'
    &&& exists|i: int| 0 <= i < b.len() && #[trigger] is_digit(b[i])
}

/// XML Schema `decimal` (on a collapsed lexeme).
pub open spec fn spec_is_decimal(s: Seq<char>) -> bool {
    spec_is_decimal_body(strip_sign(s))
}

/// Whether `v[start..end]` is the unsigned part of a decimal.
pub(crate) fn decimal_body_in(v: &Vec<char>, start: usize, end: usize) -> (r: bool)
    requires
        start <= end <= v@.len(),
    ensures
        r == spec_is_decimal_body(v@.subrange(start as int, end as int)),
{
    let ghost b = v@.subrange(start as int, end as int);
    let mut i = start;
    let mut seen_point = false;
    let mut seen_digit = false;
    while i < end
        invariant
            start <= i <= end <= v@.len(),
            b == v@.subrange(start as int, end as int),
            forall|k: int| 0 <= k < i - start ==> #[trigger] decimal_char_ok(b, k),
            seen_point <==> exists|k: int| 0 <= k < i - start && b[k] == '.',
            seen_digit <==> exists|k: int| 0 <= k < i - start && #[trigger] is_digit(b[k]),
            forall|k: int, j: int| 0 <= k < j < i - start && b[k] == '.' ==> b[j] != '.',
        decreases end - i,
    {
        let c = v[i];
        assert(b[i - start] == c);
        if c == '.' {
            if seen_point {
                let ghost k = choose|k: int| 0 <= k < i - start && b[k] == '.';
                assert(b[k] == '.' && b[i - start] == '.');
                return false;
            }
            seen_point = true;
        } else if digit(c) {
            seen_digit = true;
        } else {
            assert(!decimal_char_ok(b, i - start));
            return false;
        }
        i = i + 1;
    }
    seen_digit
}

pub fn is_decimal(v: &Vec<char>) -> (r: bool)
    ensures
        r == spec_is_decimal(v@),
{
    let start: usize = if v.len() > 0 && (v[0] == '+' || v[0] == '-') {
        1
    } else {
        0
    };
    assert(v@.subrange(0, v@.len() as int) == v@);
    assert(v@.len() > 0 ==> v@.subrange(1, v@.len() as int) == v@.drop_first());
    decimal_body_in(v, start, v.len())
}

/// XML Schema `positiveInteger` (on a collapsed lexeme).
pub open spec fn spec_is_positive_integer(s: Seq<char>) -> bool {
    let d = strip_plus(s);
    d.len() > 0 && all_digits(d) && exists|i: int| 0 <= i < d.len() && d[i] != '0'
}

/// XML Schema `nonNegativeInteger` (on a collapsed lexeme): `[+]?[0-9]+`,
/// or a negative zero such as `-000`.
pub open spec fn spec_is_non_negative_integer(s: Seq<char>) -> bool {
    if s.len() > 0 && s[0] == '-' {
        let d = s.drop_first();
        d.len() > 0 && forall|i: int| 0 <= i < d.len() ==> d[i] == '0'
    } else {
        let d = strip_plus(s);
        d.len() > 0 && all_digits(d)
    }
}

/// Scans `v[start..]`: whether it is non-empty, all digits, all zeros.
fn scan_digits(v: &Vec<char>, start: usize) -> (r: (bool, bool, bool))
    requires
        start <= v@.len(),
    ensures
        r.0 == (v@.len() > start),
        r.1 == all_digits(v@.skip(start as int)),
        r.2 == (forall|i: int| 0 <= i < v@.len() - start ==> v@.skip(start as int)[i] == '0'),
{
    let ghost d = v@.skip(start as int);
    let mut i = start;
    let mut digits = true;
    let mut zeros = true;
    while i < v.len()
        invariant
            start <= i <= v@.len(),
            d == v@.skip(start as int),
            digits == (forall|k: int| 0 <= k < i - start ==> #[trigger] is_digit(d[k])),
            zeros == (forall|k: int| 0 <= k < i - start ==> d[k] == '0'),
        decreases v.len() - i,
    {
        let c = v[i];
        assert(d[i - start] == c);
        if !digit(c) {
            digits = false;
        }
        if c != '0' {
            zeros = false;
        }
        i = i + 1;
    }
    (v.len() > start, digits, zeros)
}

pub fn is_positive_integer(v: &Vec<char>) -> (r: bool)
    ensures
        r == spec_is_positive_integer(v@),
{
    let start: usize = if v.len() > 0 && v[0] == '+' {
        1
    } else {
        0
    };
    assert(v@.skip(0) == v@);
    assert(v@.len() > 0 ==> v@.skip(1) == v@.drop_first());
    let (nonempty, digits, zeros) = scan_digits(v, start);
    let ghost d = v@.skip(start as int);
    if !zeros {
        let ghost k = choose|k: int| 0 <= k < v@.len() - start && !(d[k] == '0');
        assert(0 <= k < d.len() && d[k] != '0');
    }
    nonempty && digits && !zeros
}

pub fn is_non_negative_integer(v: &Vec<char>) -> (r: bool)
    ensures
        r == spec_is_non_negative_integer(v@),
{
    assert(v@.skip(0) == v@);
    assert(v@.len() > 0 ==> v@.skip(1) == v@.drop_first());
    if v.len() > 0 && v[0] == '-' {
        let (nonempty, _digits, zeros) = scan_digits(v, 1);
        nonempty && zeros
    } else {
        let start: usize = if v.len() > 0 && v[0] == '+' {
            1
        } else {
            0
        };
        let (nonempty, digits, _zeros) = scan_digits(v, start);
        nonempty && digits
    }
}

pub open spec fn rational_char_ok(b: Seq<char>, i: int) -> bool {
    &&& is_digit(b[i]) || b[i] == '/'
    &&& b[i] == '/' ==> (i > 0 && i + 1 < b.len() && b[i + 1] != '0')
}

/// The unsigned part of an ISO 23387 `RationalType`: a numerator and an
/// optional denominator that does not start with zero.
pub open spec fn spec_is_rational_body(b: Seq<char>) -> bool {
    &&& b.len() > 0
    &&& forall|i: int| 0 <= i < b.len() ==> #[trigger] rational_char_ok(b, i)
    &&& forall|i: int, j: int| 0 <= i < j < b.len() && b[i] == '/' ==> b[j] != '/'
}

/// ISO 23387 `RationalType`: `[+-]?[0-9]+(/[1-9][0-9]*)?` (no white-space processing).
pub open spec fn spec_is_rational(s: Seq<char>) -> bool {
    spec_is_rational_body(strip_sign(s))
}

fn rational_body_ok(v: &Vec<char>, start: usize) -> (r: bool)
    requires
        start <= v@.len(),
    ensures
        r == spec_is_rational_body(v@.skip(start as int)),
{
    let ghost b = v@.skip(start as int);
    if v.len() == start {
        return false;
    }
    let mut i = start;
    let mut seen_slash = false;
    while i < v.len()
        invariant
            start <= i <= v@.len(),
            b == v@.skip(start as int),
            forall|k: int| 0 <= k < i - start ==> #[trigger] rational_char_ok(b, k),
            seen_slash <==> exists|k: int| 0 <= k < i - start && b[k] == '/',
            forall|k: int, j: int| 0 <= k < j < i - start && b[k] == '/' ==> b[j] != '/',
        decreases v.len() - i,
    {
        let c = v[i];
        assert(b[i - start] == c);
        if c == '/' {
            if seen_slash {
                let ghost k = choose|k: int| 0 <= k < i - start && b[k] == '/';
                assert(b[k] == '/' && b[i - start] == '/');
                return false;
            }
            if i == start || i + 1 >= v.len() || v[i + 1] == '0' {
                assert(!rational_char_ok(b, i - start));
                return false;
            }
            seen_slash = true;
        } else if !digit(c) {
            assert(!rational_char_ok(b, i - start));
            return false;
        }
        i = i + 1;
    }
    true
}

pub fn is_rational(v: &Vec<char>) -> (r: bool)
    ensures
        r == spec_is_rational(v@),
{
    let start: usize = if v.len() > 0 && (v[0] == '+' || v[0] == '-') {
        1
    } else {
        0
    };
    assert(v@.skip(0) == v@);
    assert(v@.len() > 0 ==> v@.skip(1) == v@.drop_first());
    rational_body_ok(v, start)
}

// ---------------------------------------------------------------------------
// base64Binary
// ---------------------------------------------------------------------------

/// `s` without its space characters.
pub open spec fn without_spaces(s: Seq<char>) -> Seq<char>
    decreases s.len(),
{
    if s.len() == 0 {
        s
    } else if s.last() == ' ' {
        without_spaces(s.drop_last())
    } else {
        without_spaces(s.drop_last()).push(s.last())
    }
}

/// Number of trailing `=` characters.
pub open spec fn trailing_pads(s: Seq<char>) -> nat
    decreases s.len(),
{
    if s.len() == 0 {
        0
    } else if s.last() == '=' {
        trailing_pads(s.drop_last()) + 1
    } else {
        0
    }
}

pub open spec fn is_base64_char(c: char) -> bool {
    is_alnum(c) || c == '+' || c == '/'
}

/// The 6-bit value of a base64 alphabet character.
pub open spec fn base64_value(c: char) -> int {
    if 'A' <= c && c <= 'Z' {
        c as int - 'A' as int
    } else if 'a' <= c && c <= 'z' {
        c as int - 'a' as int + 26
    } else if '0' <= c && c <= '9' {
        c as int - '0' as int + 52
    } else if c == '+' {
        62
    } else {
        63
    }
}

/// XML Schema `base64Binary` on a collapsed lexeme: groups of four alphabet
/// characters, at most two trailing pads, and zero padding bits.
pub open spec fn spec_is_base64(c: Seq<char>) -> bool {
    let s = without_spaces(c);
    let p = trailing_pads(s);
    let body = s.take(s.len() - p);
    &&& s.len() % 4 == 0
    &&& p <= 2
    &&& forall|i: int| 0 <= i < body.len() ==> #[trigger] is_base64_char(body[i])
    &&& p == 0 || (body.len() > 0 && (if p == 1 {
        base64_value(body.last()) % 4 == 0
    } else {
        base64_value(body.last()) % 16 == 0
    }))
}

proof fn lemma_trailing_pads_bound(s: Seq<char>)
    ensures
        trailing_pads(s) <= s.len(),
        forall|i: int| s.len() - trailing_pads(s) <= i < s.len() ==> s[i] == '=',
        trailing_pads(s) < s.len() ==> s[s.len() - trailing_pads(s) - 1] != '=',
    decreases s.len(),
{
    if s.len() > 0 && s.last() == '=' {
        lemma_trailing_pads_bound(s.drop_last());
        assert forall|i: int| s.len() - trailing_pads(s) <= i < s.len() implies s[i] == '=' by {
            if i < s.len() - 1 {
                assert(s[i] == s.drop_last()[i]);
            }
        }
    }
}

fn base64_value_exec(c: char) -> (r: u32)
    ensures
        r == base64_value(c),
{
    if 'A' <= c && c <= 'Z' {
        (c as u32) - ('A' as u32)
    } else if 'a' <= c && c <= 'z' {
        (c as u32) - ('a' as u32) + 26
    } else if '0' <= c && c <= '9' {
        (c as u32) - ('0' as u32) + 52
    } else if c == '+' {
        62
    } else {
        63
    }
}

pub fn is_base64(v: &Vec<char>) -> (r: bool)
    ensures
        r == spec_is_base64(v@),
{
    let mut symbols: Vec<char> = Vec::new();
    let mut i: usize = 0;
    while i < v.len()
        invariant
            i <= v@.len(),
            symbols@ == without_spaces(v@.take(i as int)),
        decreases v.len() - i,
    {
        assert(v@.take(i + 1).drop_last() == v@.take(i as int));
        assert(v@.take(i + 1).last() == v@[i as int]);
        if v[i] != ' ' {
            symbols.push(v[i]);
        }
        i = i + 1;
    }
    assert(v@.take(v@.len() as int) == v@);
    let ghost s = symbols@;
    if symbols.len() % 4 != 0 {
        return false;
    }
    let mut pads: usize = 0;
    assert(s.take(s.len() as int) == s);
    while pads < symbols.len() && symbols[symbols.len() - 1 - pads] == '='
        invariant
            pads <= s.len(),
            s == symbols@,
            trailing_pads(s) == pads + trailing_pads(s.take(s.len() - pads)),
        decreases symbols.len() - pads,
    {
        let ghost t = s.take(s.len() - pads);
        assert(t.drop_last() == s.take(s.len() - pads - 1));
        pads = pads + 1;
    }
    proof {
        let t = s.take(s.len() - pads);
        if t.len() > 0 {
            assert(t.last() == s[s.len() - pads - 1]);
        }
        assert(trailing_pads(t) == 0);
        lemma_trailing_pads_bound(s);
    }
    if pads > 2 {
        return false;
    }
    let body_len = symbols.len() - pads;
    let ghost body = s.take(body_len as int);
    let mut j: usize = 0;
    while j < body_len
        invariant
            j <= body_len <= s.len(),
            s == symbols@,
            body == s.take(body_len as int),
            trailing_pads(s) == pads,
            body_len == s.len() - pads,
            s == without_spaces(v@),
            forall|k: int| 0 <= k < j ==> #[trigger] is_base64_char(body[k]),
        decreases body_len - j,
    {
        let c = symbols[j];
        assert(body[j as int] == c);
        if !(alnum(c) || c == '+' || c == '/') {
            assert(!is_base64_char(body[j as int]));
            return false;
        }
        j = j + 1;
    }
    if pads == 0 {
        true
    } else if body_len == 0 {
        false
    } else {
        let last = base64_value_exec(symbols[body_len - 1]);
        assert(body.last() == symbols@[body_len - 1]);
        if pads == 1 {
            last % 4 == 0
        } else {
            last % 16 == 0
        }
    }
}

// ---------------------------------------------------------------------------
// anyURI
// ---------------------------------------------------------------------------

/// XML Schema 1.0 `anyURI` on a collapsed lexeme: any XML 1.0 characters.
pub open spec fn spec_is_any_uri(s: Seq<char>) -> bool {
    forall|i: int| 0 <= i < s.len() ==> #[trigger] is_xml_char(s[i])
}

pub fn is_any_uri(v: &Vec<char>) -> (r: bool)
    ensures
        r == spec_is_any_uri(v@),
{
    let mut i: usize = 0;
    while i < v.len()
        invariant
            i <= v@.len(),
            forall|k: int| 0 <= k < i ==> #[trigger] is_xml_char(v@[k]),
        decreases v.len() - i,
    {
        if !xml_char(v[i]) {
            return false;
        }
        i = i + 1;
    }
    true
}


// ---------------------------------------------------------------------------
// dateTime
// ---------------------------------------------------------------------------

/// The value of a two-digit field of an XML Schema date or time.
pub open spec fn parse2(a: char, b: char) -> Option<int> {
    if is_digit(a) && is_digit(b) {
        Some((a as int - '0' as int) * 10 + (b as int - '0' as int))
    } else {
        None
    }
}

/// The value of a run of decimal digits.
pub open spec fn digits_value(s: Seq<char>) -> int
    decreases s.len(),
{
    if s.len() == 0 {
        0
    } else {
        digits_value(s.drop_last()) * 10 + (s.last() as int - '0' as int)
    }
}

pub open spec fn is_leap_year(y: int) -> bool {
    y % 4 == 0 && (y % 100 != 0 || y % 400 == 0)
}

pub open spec fn days_in_month(month: int, leap: bool) -> int {
    if month == 1 || month == 3 || month == 5 || month == 7 || month == 8 || month == 10 || month
        == 12 {
        31
    } else if month == 4 || month == 6 || month == 9 || month == 11 {
        30
    } else if month == 2 {
        if leap {
            29
        } else {
            28
        }
    } else {
        0
    }
}

pub open spec fn some_nonzero(s: Seq<char>) -> bool {
    exists|i: int| 0 <= i < s.len() && s[i] != '0'
}

/// The date part of an XML Schema `dateTime`: `-?YYYY+-MM-DD` with a
/// possible calendar day.
pub open spec fn spec_valid_date(d: Seq<char>) -> bool {
    let u = if d.len() > 0 && d[0] == '-' {
        d.drop_first()
    } else {
        d
    };
    let n = u.len() as int;
    let year = u.take(n - 6);
    &&& n >= 10
    &&& u[n - 6] == '-'
    &&& u[n - 3] == '-'
    &&& all_digits(year)
    &&& year.len() > 4 ==> year[0] != '0'
    &&& some_nonzero(year)
    &&& match (parse2(u[n - 5], u[n - 4]), parse2(u[n - 2], u[n - 1])) {
        (Some(month), Some(day)) => 1 <= day <= days_in_month(month, is_leap_year(digits_value(year))),
        _ => false,
    }
}

/// The seconds field `ss(.s+)?` with the hour and minute already read.
pub open spec fn spec_valid_seconds(s: Seq<char>, hour: int, minute: int) -> bool {
    &&& s.len() >= 2
    &&& is_digit(s[0]) && is_digit(s[1])
    &&& (s[0] as int - '0' as int) * 10 + (s[1] as int - '0' as int) <= 59
    &&& s.len() == 2 || (s[2] == '.' && s.len() > 3 && all_digits(s.skip(3)))
    &&& minute <= 59
    &&& hour <= 23 || (hour == 24 && minute == 0 && s[0] == '0' && s[1] == '0' && forall|i: int|
        3 <= i < s.len() ==> s[i] == '0')
}

/// The time part of an XML Schema `dateTime`: `hh:mm:ss(.s+)?`, with
/// `24:00:00` as the only hour-24 form.
pub open spec fn spec_valid_time(t: Seq<char>) -> bool {
    &&& t.len() >= 6
    &&& t[2] == ':' && t[5] == ':'
    &&& forall|i: int| 6 <= i < t.len() ==> t[i] != ':'
    &&& match (parse2(t[0], t[1]), parse2(t[3], t[4])) {
        (Some(hour), Some(minute)) => spec_valid_seconds(t.skip(6), hour, minute),
        _ => false,
    }
}

/// A numeric time-zone designator `(+|-)hh:mm` within `-14:00..=+14:00`.
pub open spec fn spec_valid_zone(z: Seq<char>) -> bool {
    &&& z.len() == 6
    &&& z[0] == '+' || z[0] == '-'
    &&& z[3] == ':'
    &&& match (parse2(z[1], z[2]), parse2(z[4], z[5])) {
        (Some(hour), Some(minute)) => hour <= 14 && minute <= 59 && (hour != 14 || minute == 0),
        _ => false,
    }
}

/// Everything after the `T`: a time, optionally followed by `Z` or a
/// numeric zone.
pub open spec fn spec_valid_time_and_zone(r: Seq<char>) -> bool {
    let n = r.len() as int;
    if n > 0 && r[n - 1] == 'Z' {
        spec_valid_time(r.take(n - 1))
    } else if n >= 6 && (r[n - 6] == '+' || r[n - 6] == '-') {
        spec_valid_time(r.take(n - 6)) && spec_valid_zone(r.skip(n - 6))
    } else {
        spec_valid_time(r)
    }
}

/// XML Schema `dateTime` on a collapsed lexeme: one `T` between a valid date
/// and a valid time with optional zone.
pub open spec fn spec_is_datetime(v: Seq<char>) -> bool {
    exists|t: int|
        0 <= t < v.len() && v[t] == 'T' && (forall|i: int| 0 <= i < v.len() && i != t ==> v[i] != 'T')
            && spec_valid_date(v.take(t)) && spec_valid_time_and_zone(v.skip(t + 1))
}

fn parse2_exec(a: char, b: char) -> (r: Option<u32>)
    ensures
        match parse2(a, b) {
            Some(x) => r == Some(x as u32) && 0 <= x <= 99,
            None => r is None,
        },
{
    if digit(a) && digit(b) {
        Some(((a as u32) - ('0' as u32)) * 10 + ((b as u32) - ('0' as u32)))
    } else {
        None
    }
}

proof fn lemma_mod400_step(x: int, d: int)
    requires
        x >= 0,
    ensures
        (x * 10 + d) % 400 == ((x % 400) * 10 + d) % 400,
{
    vstd::arithmetic::div_mod::lemma_mul_mod_noop_left(x, 10, 400);
    vstd::arithmetic::div_mod::lemma_add_mod_noop(x * 10, d, 400);
    vstd::arithmetic::div_mod::lemma_add_mod_noop((x % 400) * 10, d, 400);
}

pub proof fn lemma_digits_value_nonneg(s: Seq<char>)
    requires
        all_digits(s),
    ensures
        digits_value(s) >= 0,
    decreases s.len(),
{
    if s.len() > 0 {
        assert(all_digits(s.drop_last())) by {
            assert forall|i: int| 0 <= i < s.drop_last().len() implies is_digit(s.drop_last()[i]) by {
                assert(s.drop_last()[i] == s[i]);
            }
        }
        assert(is_digit(s[s.len() - 1]));
        lemma_digits_value_nonneg(s.drop_last());
    }
}

proof fn lemma_leap_mod400(y: int)
    requires
        y >= 0,
    ensures
        is_leap_year(y) == ((y % 400) % 4 == 0 && ((y % 400) % 100 != 0 || y % 400 == 0)),
{
    vstd::arithmetic::div_mod::lemma_mod_mod(y, 4, 100);
    vstd::arithmetic::div_mod::lemma_mod_mod(y, 100, 4);
    assert(4 * 100 == 400 && 100 * 4 == 400);
}

pub(crate) fn days_in_month_exec(month: u32, leap: bool) -> (r: u32)
    ensures
        r == days_in_month(month as int, leap),
{
    if month == 1 || month == 3 || month == 5 || month == 7 || month == 8 || month == 10 || month
        == 12 {
        31
    } else if month == 4 || month == 6 || month == 9 || month == 11 {
        30
    } else if month == 2 {
        if leap {
            29
        } else {
            28
        }
    } else {
        0
    }
}

fn valid_date(v: &Vec<char>, lo: usize, hi: usize) -> (r: bool)
    requires
        lo <= hi <= v@.len(),
    ensures
        r == spec_valid_date(v@.subrange(lo as int, hi as int)),
{
    let ghost d = v@.subrange(lo as int, hi as int);
    let a: usize = if hi > lo && v[lo] == '-' {
        lo + 1
    } else {
        lo
    };
    let ghost u = v@.subrange(a as int, hi as int);
    assert(u == (if d.len() > 0 && d[0] == '-' {
        d.drop_first()
    } else {
        d
    }));
    if hi - a < 10 {
        return false;
    }
    if v[hi - 6] != '-' || v[hi - 3] != '-' {
        return false;
    }
    let ghost n = u.len() as int;
    let ghost year = u.take(n - 6);
    let year_end = hi - 6;
    let mut k = a;
    let mut acc: u32 = 0;
    let mut nonzero = false;
    while k < year_end
        invariant
            a <= k <= year_end,
            year_end + 6 == hi <= v@.len(),
            year == v@.subrange(a as int, year_end as int),
            d == v@.subrange(lo as int, hi as int),
            u == v@.subrange(a as int, hi as int),
            n == u.len(),
            year == u.take(n - 6),
            u == (if d.len() > 0 && d[0] == '-' {
                d.drop_first()
            } else {
                d
            }),
            all_digits(year.take(k - a)),
            acc as int == digits_value(year.take(k - a)) % 400,
            nonzero <==> exists|i: int| 0 <= i < k - a && year[i] != '0',
        decreases year_end - k,
    {
        let c = v[k];
        assert(year[k - a] == c);
        if !digit(c) {
            assert(!all_digits(year));
            return false;
        }
        if c != '0' {
            nonzero = true;
        }
        proof {
            let p = year.take(k - a);
            let q = year.take(k - a + 1);
            assert(q.drop_last() == p);
            assert(q.last() == c);
            assert(all_digits(q)) by {
                assert forall|i: int| 0 <= i < q.len() implies is_digit(q[i]) by {
                    if i < q.len() - 1 {
                        assert(q[i] == p[i]);
                    }
                }
            }
            lemma_digits_value_nonneg(p);
            lemma_mod400_step(digits_value(p), c as int - '0' as int);
        }
        acc = (acc * 10 + ((c as u32) - ('0' as u32))) % 400;
        k = k + 1;
    }
    assert(year.take(year.len() as int) == year);
    assert(u[n - 5] == v@[hi - 5] && u[n - 4] == v@[hi - 4]);
    assert(u[n - 2] == v@[hi - 2] && u[n - 1] == v@[hi - 1]);
    assert(u[n - 6] == v@[hi - 6] && u[n - 3] == v@[hi - 3]);
    assert(year.len() > 0 ==> year[0] == v@[a as int]);
    if year_end - a > 4 && v[a] == '0' {
        return false;
    }
    if !nonzero {
        return false;
    }
    let month = parse2_exec(v[hi - 5], v[hi - 4]);
    let day = parse2_exec(v[hi - 2], v[hi - 1]);
    match (month, day) {
        (Some(m), Some(dd)) => {
            proof {
                lemma_digits_value_nonneg(year);
                lemma_leap_mod400(digits_value(year));
            }
            let leap = acc % 4 == 0 && (acc % 100 != 0 || acc == 0);
            let max = days_in_month_exec(m, leap);
            1 <= dd && dd <= max
        },
        _ => false,
    }
}

fn valid_time(v: &Vec<char>, lo: usize, hi: usize) -> (r: bool)
    requires
        lo <= hi <= v@.len(),
    ensures
        r == spec_valid_time(v@.subrange(lo as int, hi as int)),
{
    let ghost t = v@.subrange(lo as int, hi as int);
    if hi - lo < 6 {
        return false;
    }
    if v[lo + 2] != ':' || v[lo + 5] != ':' {
        return false;
    }
    let mut k = lo + 6;
    while k < hi
        invariant
            lo + 6 <= k <= hi <= v@.len(),
            t == v@.subrange(lo as int, hi as int),
            forall|i: int| 6 <= i < k - lo ==> t[i] != ':',
        decreases hi - k,
    {
        if v[k] == ':' {
            assert(t[k - lo] == ':');
            return false;
        }
        k = k + 1;
    }
    let hour = parse2_exec(v[lo], v[lo + 1]);
    let minute = parse2_exec(v[lo + 3], v[lo + 4]);
    let (h, m) = match (hour, minute) {
        (Some(h), Some(m)) => (h, m),
        _ => {
            return false;
        },
    };
    let ghost s = t.skip(6);
    let s0 = lo + 6;
    if hi - s0 < 2 {
        return false;
    }
    let a = v[s0];
    let b = v[s0 + 1];
    assert(s[0] == a && s[1] == b);
    if !digit(a) || !digit(b) {
        return false;
    }
    let sec = ((a as u32) - ('0' as u32)) * 10 + ((b as u32) - ('0' as u32));
    if sec > 59 {
        return false;
    }
    let mut fraction_zero = true;
    if hi - s0 > 2 {
        if v[s0 + 2] != '.' || hi - s0 <= 3 {
            return false;
        }
        let mut j = s0 + 3;
        while j < hi
            invariant
                s0 + 3 <= j <= hi <= v@.len(),
                s0 == lo + 6,
                s == v@.subrange(lo as int, hi as int).skip(6),
                forall|i: int| 0 <= i < j - s0 - 3 ==> #[trigger] is_digit(s.skip(3)[i]),
                fraction_zero == (forall|i: int| 3 <= i < j - s0 ==> s[i] == '0'),
            decreases hi - j,
        {
            let c = v[j];
            assert(s[j - s0] == c);
            assert(s.skip(3)[j - s0 - 3] == c);
            if !digit(c) {
                return false;
            }
            if c != '0' {
                fraction_zero = false;
            }
            j = j + 1;
        }
    }
    if m > 59 {
        return false;
    }
    h <= 23 || (h == 24 && m == 0 && a == '0' && b == '0' && fraction_zero)
}

fn valid_zone(v: &Vec<char>, lo: usize, hi: usize) -> (r: bool)
    requires
        lo <= hi <= v@.len(),
    ensures
        r == spec_valid_zone(v@.subrange(lo as int, hi as int)),
{
    if hi - lo != 6 {
        return false;
    }
    if !(v[lo] == '+' || v[lo] == '-') || v[lo + 3] != ':' {
        return false;
    }
    match (parse2_exec(v[lo + 1], v[lo + 2]), parse2_exec(v[lo + 4], v[lo + 5])) {
        (Some(h), Some(m)) => h <= 14 && m <= 59 && (h != 14 || m == 0),
        _ => false,
    }
}

fn valid_time_and_zone(v: &Vec<char>, lo: usize, hi: usize) -> (r: bool)
    requires
        lo <= hi <= v@.len(),
    ensures
        r == spec_valid_time_and_zone(v@.subrange(lo as int, hi as int)),
{
    let ghost r = v@.subrange(lo as int, hi as int);
    let n = hi - lo;
    if n > 0 && v[hi - 1] == 'Z' {
        assert(r.take(n - 1) == v@.subrange(lo as int, hi - 1));
        valid_time(v, lo, hi - 1)
    } else if n >= 6 && (v[hi - 6] == '+' || v[hi - 6] == '-') {
        assert(r.take(n - 6) == v@.subrange(lo as int, hi - 6));
        assert(r.skip(n - 6) == v@.subrange(hi - 6, hi as int));
        valid_time(v, lo, hi - 6) && valid_zone(v, hi - 6, hi)
    } else {
        valid_time(v, lo, hi)
    }
}

pub fn is_datetime(v: &Vec<char>) -> (r: bool)
    ensures
        r == spec_is_datetime(v@),
{
    let mut t: usize = 0;
    let mut found = false;
    let mut i: usize = 0;
    while i < v.len()
        invariant
            i <= v@.len(),
            found ==> (t < i && v@[t as int] == 'T'),
            found ==> forall|k: int| 0 <= k < i && k != t ==> v@[k] != 'T',
            !found ==> forall|k: int| 0 <= k < i ==> v@[k] != 'T',
        decreases v.len() - i,
    {
        if v[i] == 'T' {
            if found {
                assert forall|tt: int|
                    0 <= tt < v@.len() && v@[tt] == 'T' implies !(forall|k: int|
                    0 <= k < v@.len() && k != tt ==> v@[k] != 'T') by {
                    if tt == t {
                        assert(v@[i as int] == 'T');
                    } else {
                        assert(v@[t as int] == 'T');
                    }
                }
                return false;
            }
            found = true;
            t = i;
        }
        i = i + 1;
    }
    if !found {
        return false;
    }
    assert(v@.take(t as int) == v@.subrange(0, t as int));
    assert(v@.skip(t + 1) == v@.subrange(t + 1, v@.len() as int));
    let ok = valid_date(v, 0, t) && valid_time_and_zone(v, t + 1, v.len());
    if !ok {
        assert forall|tt: int|
            0 <= tt < v@.len() && v@[tt] == 'T' && (forall|k: int|
                0 <= k < v@.len() && k != tt ==> v@[k] != 'T') implies !(spec_valid_date(
            v@.take(tt)) && spec_valid_time_and_zone(v@.skip(tt + 1))) by {
            if tt != t {
                assert(v@[t as int] == 'T');
            }
        }
    }
    ok
}


/// ISO 23387 `GuidType`, preserving its validated source spelling.
#[derive(Debug, PartialEq, Eq, Hash, PartialOrd, Ord)]
pub struct Guid(String);

impl View for Guid {
    type V = Seq<char>;

    closed spec fn view(&self) -> Seq<char> {
        self.0@
    }
}

impl Guid {
    #[verifier::type_invariant]
    closed spec fn lexically_valid(self) -> bool {
        spec_is_guid(self.0@)
    }

    /// The validated lexeme.
    pub fn as_str(&self) -> (r: &str)
        ensures
            r@ == self@,
            spec_is_guid(self@),
    {
        proof {
            use_type_invariant(self);
        }
        self.0.as_str()
    }

    /// Validates `value`.
    pub fn from_str(value: &str) -> (r: Result<Guid, ValueError>)
        ensures
            r is Ok <==> spec_is_guid(value@),
            r matches Ok(v) ==> v@ == value@,
            r matches Err(e) ==> e.spec_kind() == ValueErrorKind::Guid && e.spec_value() == value@,
    {
        let chars = chars_of(value);
        if is_guid(&chars) {
            Ok(Guid(String::from_str(value)))
        } else {
            Err(ValueError::new(ValueErrorKind::Guid, String::from_str(value)))
        }
    }


    /// The lexeme as an owned string.
    pub fn to_string(&self) -> (r: String)
        ensures
            r@ == self@,
    {
        self.0.clone()
    }
}

impl Clone for Guid {
    fn clone(&self) -> (r: Self)
        ensures
            r == *self,
    {
        proof {
            use_type_invariant(self);
        }
        Guid(self.0.clone())
    }
}

impl std::str::FromStr for Guid {
    type Err = ValueError;

    fn from_str(value: &str) -> Result<Self, Self::Err> {
        Guid::from_str(value)
    }
}

/// XML Schema `language`, after white-space collapsing.
#[derive(Debug, PartialEq, Eq, Hash)]
pub struct Language(String);

impl View for Language {
    type V = Seq<char>;

    closed spec fn view(&self) -> Seq<char> {
        self.0@
    }
}

impl Language {
    #[verifier::type_invariant]
    closed spec fn lexically_valid(self) -> bool {
        spec_is_language(self.0@) && spec_collapse(self.0@) == self.0@
    }

    /// The validated lexeme.
    pub fn as_str(&self) -> (r: &str)
        ensures
            r@ == self@,
            spec_is_language(self@),
            spec_collapse(self@) == self@,
    {
        proof {
            use_type_invariant(self);
        }
        self.0.as_str()
    }

    /// Validates `value` after white-space collapsing.
    pub fn from_str(value: &str) -> (r: Result<Language, ValueError>)
        ensures
            r is Ok <==> spec_is_language(spec_collapse(value@)),
            r matches Ok(v) ==> v@ == spec_collapse(value@),
            r matches Err(e) ==> e.spec_kind() == ValueErrorKind::Language && e.spec_value() == spec_collapse(value@),
    {
        proof {
            crate::text::lemma_collapse_idempotent(value@);
        }
        let collapsed = collapse_whitespace(value);
        let text = string_from_chars(&collapsed);
        if is_language(&collapsed) {
            Ok(Language(text))
        } else {
            Err(ValueError::new(ValueErrorKind::Language, text))
        }
    }


    /// The lexeme as an owned string.
    pub fn to_string(&self) -> (r: String)
        ensures
            r@ == self@,
            spec_is_language(self@),
            spec_collapse(self@) == self@,
    {
        proof {
            use_type_invariant(self);
        }
        self.0.clone()
    }
}

impl Clone for Language {
    fn clone(&self) -> (r: Self)
        ensures
            r == *self,
    {
        proof {
            use_type_invariant(self);
        }
        Language(self.0.clone())
    }
}

impl std::str::FromStr for Language {
    type Err = ValueError;

    fn from_str(value: &str) -> Result<Self, Self::Err> {
        Language::from_str(value)
    }
}

/// XML Schema `dateTime`, after white-space collapsing.
#[derive(Debug, PartialEq, Eq, Hash)]
pub struct DateTime(String);

impl View for DateTime {
    type V = Seq<char>;

    closed spec fn view(&self) -> Seq<char> {
        self.0@
    }
}

impl DateTime {
    #[verifier::type_invariant]
    closed spec fn lexically_valid(self) -> bool {
        spec_is_datetime(self.0@) && spec_collapse(self.0@) == self.0@
    }

    /// The validated lexeme.
    pub fn as_str(&self) -> (r: &str)
        ensures
            r@ == self@,
            spec_is_datetime(self@),
            spec_collapse(self@) == self@,
    {
        proof {
            use_type_invariant(self);
        }
        self.0.as_str()
    }

    /// Validates `value` after white-space collapsing.
    pub fn from_str(value: &str) -> (r: Result<DateTime, ValueError>)
        ensures
            r is Ok <==> spec_is_datetime(spec_collapse(value@)),
            r matches Ok(v) ==> v@ == spec_collapse(value@),
            r matches Err(e) ==> e.spec_kind() == ValueErrorKind::CreationDate && e.spec_value() == spec_collapse(value@),
    {
        proof {
            crate::text::lemma_collapse_idempotent(value@);
        }
        let collapsed = collapse_whitespace(value);
        let text = string_from_chars(&collapsed);
        if is_datetime(&collapsed) {
            Ok(DateTime(text))
        } else {
            Err(ValueError::new(ValueErrorKind::CreationDate, text))
        }
    }


    /// The lexeme as an owned string.
    pub fn to_string(&self) -> (r: String)
        ensures
            r@ == self@,
    {
        self.0.clone()
    }
}

impl Clone for DateTime {
    fn clone(&self) -> (r: Self)
        ensures
            r == *self,
    {
        proof {
            use_type_invariant(self);
        }
        DateTime(self.0.clone())
    }
}

impl std::str::FromStr for DateTime {
    type Err = ValueError;

    fn from_str(value: &str) -> Result<Self, Self::Err> {
        DateTime::from_str(value)
    }
}

/// XML Schema 1.0 `anyURI` after white-space collapsing; Unicode and spaces
/// that the schema escaping procedure would percent-encode are retained.
#[derive(Debug, PartialEq, Eq, Hash)]
pub struct AnyUri(String);

impl View for AnyUri {
    type V = Seq<char>;

    closed spec fn view(&self) -> Seq<char> {
        self.0@
    }
}

impl AnyUri {
    #[verifier::type_invariant]
    closed spec fn lexically_valid(self) -> bool {
        spec_is_any_uri(self.0@) && spec_collapse(self.0@) == self.0@
    }

    /// The validated lexeme.
    pub fn as_str(&self) -> (r: &str)
        ensures
            r@ == self@,
            spec_is_any_uri(self@),
            spec_collapse(self@) == self@,
    {
        proof {
            use_type_invariant(self);
        }
        self.0.as_str()
    }

    /// Validates `value` after white-space collapsing.
    pub fn from_str(value: &str) -> (r: Result<AnyUri, ValueError>)
        ensures
            r is Ok <==> spec_is_any_uri(spec_collapse(value@)),
            r matches Ok(v) ==> v@ == spec_collapse(value@),
            r matches Err(e) ==> e.spec_kind() == ValueErrorKind::Uri && e.spec_value() == spec_collapse(value@),
    {
        proof {
            crate::text::lemma_collapse_idempotent(value@);
        }
        let collapsed = collapse_whitespace(value);
        let text = string_from_chars(&collapsed);
        if is_any_uri(&collapsed) {
            Ok(AnyUri(text))
        } else {
            Err(ValueError::new(ValueErrorKind::Uri, text))
        }
    }


    /// The lexeme as an owned string.
    pub fn to_string(&self) -> (r: String)
        ensures
            r@ == self@,
    {
        self.0.clone()
    }
}

impl Clone for AnyUri {
    fn clone(&self) -> (r: Self)
        ensures
            r == *self,
    {
        proof {
            use_type_invariant(self);
        }
        AnyUri(self.0.clone())
    }
}

impl std::str::FromStr for AnyUri {
    type Err = ValueError;

    fn from_str(value: &str) -> Result<Self, Self::Err> {
        AnyUri::from_str(value)
    }
}

/// XML Schema `decimal`, preserving its collapsed lexeme.
#[derive(Debug, PartialEq, Eq, Hash)]
pub struct Decimal(String);

impl View for Decimal {
    type V = Seq<char>;

    closed spec fn view(&self) -> Seq<char> {
        self.0@
    }
}

impl Decimal {
    #[verifier::type_invariant]
    closed spec fn lexically_valid(self) -> bool {
        spec_is_decimal(self.0@) && spec_collapse(self.0@) == self.0@
    }

    /// The validated lexeme.
    pub fn as_str(&self) -> (r: &str)
        ensures
            r@ == self@,
            spec_is_decimal(self@),
            spec_collapse(self@) == self@,
    {
        proof {
            use_type_invariant(self);
        }
        self.0.as_str()
    }

    /// Validates `value` after white-space collapsing.
    pub fn from_str(value: &str) -> (r: Result<Decimal, ValueError>)
        ensures
            r is Ok <==> spec_is_decimal(spec_collapse(value@)),
            r matches Ok(v) ==> v@ == spec_collapse(value@),
            r matches Err(e) ==> e.spec_kind() == ValueErrorKind::Decimal && e.spec_value() == spec_collapse(value@),
    {
        proof {
            crate::text::lemma_collapse_idempotent(value@);
        }
        let collapsed = collapse_whitespace(value);
        let text = string_from_chars(&collapsed);
        if is_decimal(&collapsed) {
            Ok(Decimal(text))
        } else {
            Err(ValueError::new(ValueErrorKind::Decimal, text))
        }
    }


    /// The lexeme as an owned string.
    pub fn to_string(&self) -> (r: String)
        ensures
            r@ == self@,
    {
        self.0.clone()
    }
}

impl Clone for Decimal {
    fn clone(&self) -> (r: Self)
        ensures
            r == *self,
    {
        proof {
            use_type_invariant(self);
        }
        Decimal(self.0.clone())
    }
}

impl std::str::FromStr for Decimal {
    type Err = ValueError;

    fn from_str(value: &str) -> Result<Self, Self::Err> {
        Decimal::from_str(value)
    }
}

/// XML Schema `positiveInteger`, preserving its collapsed lexeme.
#[derive(Debug, PartialEq, Eq, Hash)]
pub struct PositiveInteger(String);

impl View for PositiveInteger {
    type V = Seq<char>;

    closed spec fn view(&self) -> Seq<char> {
        self.0@
    }
}

impl PositiveInteger {
    #[verifier::type_invariant]
    closed spec fn lexically_valid(self) -> bool {
        spec_is_positive_integer(self.0@) && spec_collapse(self.0@) == self.0@
    }

    /// The validated lexeme.
    pub fn as_str(&self) -> (r: &str)
        ensures
            r@ == self@,
            spec_is_positive_integer(self@),
            spec_collapse(self@) == self@,
    {
        proof {
            use_type_invariant(self);
        }
        self.0.as_str()
    }

    /// Validates `value` after white-space collapsing.
    pub fn from_str(value: &str) -> (r: Result<PositiveInteger, ValueError>)
        ensures
            r is Ok <==> spec_is_positive_integer(spec_collapse(value@)),
            r matches Ok(v) ==> v@ == spec_collapse(value@),
            r matches Err(e) ==> e.spec_kind() == ValueErrorKind::PositiveInteger && e.spec_value() == spec_collapse(value@),
    {
        proof {
            crate::text::lemma_collapse_idempotent(value@);
        }
        let collapsed = collapse_whitespace(value);
        let text = string_from_chars(&collapsed);
        if is_positive_integer(&collapsed) {
            Ok(PositiveInteger(text))
        } else {
            Err(ValueError::new(ValueErrorKind::PositiveInteger, text))
        }
    }


    /// The lexeme as an owned string.
    pub fn to_string(&self) -> (r: String)
        ensures
            r@ == self@,
    {
        self.0.clone()
    }
}

impl Clone for PositiveInteger {
    fn clone(&self) -> (r: Self)
        ensures
            r == *self,
    {
        proof {
            use_type_invariant(self);
        }
        PositiveInteger(self.0.clone())
    }
}

impl std::str::FromStr for PositiveInteger {
    type Err = ValueError;

    fn from_str(value: &str) -> Result<Self, Self::Err> {
        PositiveInteger::from_str(value)
    }
}

/// XML Schema `nonNegativeInteger`, preserving its collapsed lexeme (`007`
/// stays `007`).
#[derive(Debug, PartialEq, Eq, Hash)]
pub struct NonNegativeInteger(String);

impl View for NonNegativeInteger {
    type V = Seq<char>;

    closed spec fn view(&self) -> Seq<char> {
        self.0@
    }
}

impl NonNegativeInteger {
    #[verifier::type_invariant]
    closed spec fn lexically_valid(self) -> bool {
        spec_is_non_negative_integer(self.0@) && spec_collapse(self.0@) == self.0@
    }

    /// The validated lexeme.
    pub fn as_str(&self) -> (r: &str)
        ensures
            r@ == self@,
            spec_is_non_negative_integer(self@),
            spec_collapse(self@) == self@,
    {
        proof {
            use_type_invariant(self);
        }
        self.0.as_str()
    }

    /// Validates `value` after white-space collapsing.
    pub fn from_str(value: &str) -> (r: Result<NonNegativeInteger, ValueError>)
        ensures
            r is Ok <==> spec_is_non_negative_integer(spec_collapse(value@)),
            r matches Ok(v) ==> v@ == spec_collapse(value@),
            r matches Err(e) ==> e.spec_kind() == ValueErrorKind::NonNegativeInteger && e.spec_value() == spec_collapse(value@),
    {
        proof {
            crate::text::lemma_collapse_idempotent(value@);
        }
        let collapsed = collapse_whitespace(value);
        let text = string_from_chars(&collapsed);
        if is_non_negative_integer(&collapsed) {
            Ok(NonNegativeInteger(text))
        } else {
            Err(ValueError::new(ValueErrorKind::NonNegativeInteger, text))
        }
    }


    /// The lexeme as an owned string.
    pub fn to_string(&self) -> (r: String)
        ensures
            r@ == self@,
            spec_is_non_negative_integer(self@),
            spec_collapse(self@) == self@,
    {
        proof {
            use_type_invariant(self);
        }
        self.0.clone()
    }
}

impl Clone for NonNegativeInteger {
    fn clone(&self) -> (r: Self)
        ensures
            r == *self,
    {
        proof {
            use_type_invariant(self);
        }
        NonNegativeInteger(self.0.clone())
    }
}

impl std::str::FromStr for NonNegativeInteger {
    type Err = ValueError;

    fn from_str(value: &str) -> Result<Self, Self::Err> {
        NonNegativeInteger::from_str(value)
    }
}

/// XML Schema `base64Binary`, preserving its collapsed lexeme.
#[derive(Debug, PartialEq, Eq, Hash)]
pub struct Base64Binary(String);

impl View for Base64Binary {
    type V = Seq<char>;

    closed spec fn view(&self) -> Seq<char> {
        self.0@
    }
}

impl Base64Binary {
    #[verifier::type_invariant]
    closed spec fn lexically_valid(self) -> bool {
        spec_is_base64(self.0@) && spec_collapse(self.0@) == self.0@
    }

    /// The validated lexeme.
    pub fn as_str(&self) -> (r: &str)
        ensures
            r@ == self@,
            spec_is_base64(self@),
            spec_collapse(self@) == self@,
    {
        proof {
            use_type_invariant(self);
        }
        self.0.as_str()
    }

    /// Validates `value` after white-space collapsing.
    pub fn from_str(value: &str) -> (r: Result<Base64Binary, ValueError>)
        ensures
            r is Ok <==> spec_is_base64(spec_collapse(value@)),
            r matches Ok(v) ==> v@ == spec_collapse(value@),
            r matches Err(e) ==> e.spec_kind() == ValueErrorKind::Base64Binary && e.spec_value() == spec_collapse(value@),
    {
        proof {
            crate::text::lemma_collapse_idempotent(value@);
        }
        let collapsed = collapse_whitespace(value);
        let text = string_from_chars(&collapsed);
        if is_base64(&collapsed) {
            Ok(Base64Binary(text))
        } else {
            Err(ValueError::new(ValueErrorKind::Base64Binary, text))
        }
    }


    /// The lexeme as an owned string.
    pub fn to_string(&self) -> (r: String)
        ensures
            r@ == self@,
            spec_is_base64(self@),
            spec_collapse(self@) == self@,
    {
        proof {
            use_type_invariant(self);
        }
        self.0.clone()
    }
}

impl Clone for Base64Binary {
    fn clone(&self) -> (r: Self)
        ensures
            r == *self,
    {
        proof {
            use_type_invariant(self);
        }
        Base64Binary(self.0.clone())
    }
}

impl std::str::FromStr for Base64Binary {
    type Err = ValueError;

    fn from_str(value: &str) -> Result<Self, Self::Err> {
        Base64Binary::from_str(value)
    }
}

/// ISO 23387 `RationalType`, preserving its source lexeme.
#[derive(Debug, PartialEq, Eq, Hash)]
pub struct Rational(String);

impl View for Rational {
    type V = Seq<char>;

    closed spec fn view(&self) -> Seq<char> {
        self.0@
    }
}

impl Rational {
    #[verifier::type_invariant]
    closed spec fn lexically_valid(self) -> bool {
        spec_is_rational(self.0@)
    }

    /// The validated lexeme.
    pub fn as_str(&self) -> (r: &str)
        ensures
            r@ == self@,
            spec_is_rational(self@),
    {
        proof {
            use_type_invariant(self);
        }
        self.0.as_str()
    }

    /// Validates `value`.
    pub fn from_str(value: &str) -> (r: Result<Rational, ValueError>)
        ensures
            r is Ok <==> spec_is_rational(value@),
            r matches Ok(v) ==> v@ == value@,
            r matches Err(e) ==> e.spec_kind() == ValueErrorKind::Rational && e.spec_value() == value@,
    {
        let chars = chars_of(value);
        if is_rational(&chars) {
            Ok(Rational(String::from_str(value)))
        } else {
            Err(ValueError::new(ValueErrorKind::Rational, String::from_str(value)))
        }
    }


    /// The lexeme as an owned string.
    pub fn to_string(&self) -> (r: String)
        ensures
            r@ == self@,
    {
        self.0.clone()
    }
}

impl Clone for Rational {
    fn clone(&self) -> (r: Self)
        ensures
            r == *self,
    {
        proof {
            use_type_invariant(self);
        }
        Rational(self.0.clone())
    }
}

impl std::str::FromStr for Rational {
    type Err = ValueError;

    fn from_str(value: &str) -> Result<Self, Self::Err> {
        Rational::from_str(value)
    }
}

// ---------------------------------------------------------------------------
// Multilingual text and references
// ---------------------------------------------------------------------------

/// ISO 23387 multilingual text.
#[derive(Debug, PartialEq, Eq, Hash)]
pub struct MultiLanguageText {
    language: String,
    text: String,
}

impl MultiLanguageText {
    /// The tag, as supplied, collapses to an XML Schema `language` lexeme.
    #[verifier::type_invariant]
    closed spec fn language_valid(self) -> bool {
        spec_is_language(spec_collapse(self.language@))
    }

    /// The language tag as supplied.
    pub closed spec fn spec_language(&self) -> String {
        self.language
    }

    pub closed spec fn spec_text(&self) -> Seq<char> {
        self.text@
    }

    /// Creates text after validating the XML Schema `language` lexeme.
    pub fn new(language: &str, text: &str) -> (r: Result<Self, ValueError>)
        ensures
            r is Ok <==> spec_is_language(spec_collapse(language@)),
            r matches Ok(m) ==> m.spec_language()@ == language@ && m.spec_text() == text@,
            r matches Err(e) ==> e.spec_kind() == ValueErrorKind::Language && e.spec_value()
                == spec_collapse(language@),
    {
        match Language::from_str(language) {
            Ok(_) => Ok(MultiLanguageText { language: String::from_str(language), text: String::from_str(text) }),
            Err(e) => Err(e),
        }
    }

    /// Builds text from an already validated language.
    pub fn from_parts(language: Language, text: String) -> (r: Self)
        ensures
            r.spec_language()@ == language@,
            r.spec_text() == text@,
    {
        let tag = String::from_str(language.as_str());
        proof {
            crate::text::lemma_collapse_idempotent(language@);
        }
        MultiLanguageText { language: tag, text }
    }

    /// Language tag exactly as supplied.
    pub fn language(&self) -> (r: &str)
        ensures
            r@ == self.spec_language()@,
            spec_is_language(spec_collapse(r@)),
    {
        proof {
            use_type_invariant(self);
        }
        self.language.as_str()
    }

    /// Text value exactly as supplied.
    pub fn text(&self) -> (r: &str)
        ensures
            r@ == self.spec_text(),
    {
        self.text.as_str()
    }
}

impl Clone for MultiLanguageText {
    fn clone(&self) -> (r: Self)
        ensures
            r == *self,
    {
        proof {
            use_type_invariant(self);
        }
        MultiLanguageText { language: self.language.clone(), text: self.text.clone() }
    }
}

/// An ISO 23387 reference by GUID, URI, or both.
#[derive(Debug, Clone, PartialEq, Eq, Hash)]
pub struct Reference {
    guid: Option<Guid>,
    uri: Option<AnyUri>,
}

impl Reference {
    pub closed spec fn spec_guid(&self) -> Option<Guid> {
        self.guid
    }

    pub closed spec fn spec_uri(&self) -> Option<AnyUri> {
        self.uri
    }

    /// Creates the exact XSD contract; both attributes may be absent.
    pub fn new(guid: Option<Guid>, uri: Option<AnyUri>) -> (r: Self)
        ensures
            r.spec_guid() == guid,
            r.spec_uri() == uri,
    {
        Reference { guid, uri }
    }

    /// Creates a semantically identified reference, rejecting the empty state.
    pub fn identified(guid: Option<Guid>, uri: Option<AnyUri>) -> (r: Result<Self, ValueError>)
        ensures
            r is Ok <==> (guid is Some || uri is Some),
            r matches Ok(v) ==> v.spec_guid() == guid && v.spec_uri() == uri,
            r matches Err(e) ==> e.spec_kind() == ValueErrorKind::EmptyReference && e.spec_value()
                == Seq::<char>::empty(),
    {
        if guid.is_none() && uri.is_none() {
            return Err(ValueError::new(ValueErrorKind::EmptyReference, String::new()));
        }
        Ok(Reference::new(guid, uri))
    }

    /// Whether neither a GUID nor a URI is present.
    pub fn is_empty(&self) -> (r: bool)
        ensures
            r == (self.spec_guid() is None && self.spec_uri() is None),
    {
        self.guid.is_none() && self.uri.is_none()
    }

    /// Referenced GUID, when present.
    pub fn guid(&self) -> (r: Option<&Guid>)
        ensures
            r == match self.spec_guid() {
                Some(g) => Some(&g),
                None => None::<&Guid>,
            },
    {
        match &self.guid {
            Some(g) => Some(g),
            None => None,
        }
    }

    /// Referenced URI, when present.
    pub fn uri(&self) -> (r: Option<&str>)
        ensures
            r is Some <==> self.spec_uri() is Some,
            r matches Some(u) ==> u@ == self.spec_uri()->0@,
            r matches Some(u) ==> spec_is_any_uri(u@) && spec_collapse(u@) == u@,
    {
        match &self.uri {
            Some(u) => Some(u.as_str()),
            None => None,
        }
    }
}

// ---------------------------------------------------------------------------
// ConceptType
// ---------------------------------------------------------------------------

/// The abstract content of a [`Concept`]: its attributes and every
/// repeatable child list.
pub struct ConceptModel {
    pub guid: Guid,
    pub date_of_creation: DateTime,
    pub about: Option<AnyUri>,
    pub names: Seq<MultiLanguageText>,
    pub definitions: Seq<MultiLanguageText>,
    pub descriptions: Seq<MultiLanguageText>,
    pub examples: Seq<MultiLanguageText>,
    pub reference_document_refs: Seq<Reference>,
    pub similar_to_refs: Seq<Reference>,
    pub replaced_objects_refs: Seq<Reference>,
    pub dictionary_refs: Seq<Reference>,
    pub languages_of_creator: Seq<Language>,
    pub countries_of_origin: Seq<String>,
    pub visual_representations: Seq<Base64Binary>,
    pub major_versions: Seq<NonNegativeInteger>,
    pub minor_versions: Seq<NonNegativeInteger>,
    pub statuses: Seq<String>,
    pub deprecation_explanations: Seq<String>,
}

/// Owned ISO 23387 `ConceptType`: every attribute and child it declares.
///
/// `ConceptType` content is a repeating choice, so child order carries no
/// meaning and is not stored. `new` always supplies a name and a definition;
/// `from_identity` builds an empty concept for decoders.
#[derive(Debug, Clone, PartialEq, Eq)]
pub struct Concept {
    guid: Guid,
    date_of_creation: DateTime,
    about: Option<AnyUri>,
    names: Vec<MultiLanguageText>,
    definitions: Vec<MultiLanguageText>,
    descriptions: Vec<MultiLanguageText>,
    examples: Vec<MultiLanguageText>,
    reference_document_refs: Vec<Reference>,
    similar_to_refs: Vec<Reference>,
    replaced_objects_refs: Vec<Reference>,
    dictionary_refs: Vec<Reference>,
    languages_of_creator: Vec<Language>,
    countries_of_origin: Vec<String>,
    visual_representations: Vec<Base64Binary>,
    major_versions: Vec<NonNegativeInteger>,
    minor_versions: Vec<NonNegativeInteger>,
    statuses: Vec<String>,
    deprecation_explanations: Vec<String>,
}

impl View for Concept {
    type V = ConceptModel;

    closed spec fn view(&self) -> ConceptModel {
        ConceptModel {
            guid: self.guid,
            date_of_creation: self.date_of_creation,
            about: self.about,
            names: self.names@,
            definitions: self.definitions@,
            descriptions: self.descriptions@,
            examples: self.examples@,
            reference_document_refs: self.reference_document_refs@,
            similar_to_refs: self.similar_to_refs@,
            replaced_objects_refs: self.replaced_objects_refs@,
            dictionary_refs: self.dictionary_refs@,
            languages_of_creator: self.languages_of_creator@,
            countries_of_origin: self.countries_of_origin@,
            visual_representations: self.visual_representations@,
            major_versions: self.major_versions@,
            minor_versions: self.minor_versions@,
            statuses: self.statuses@,
            deprecation_explanations: self.deprecation_explanations@,
        }
    }
}

/// The model of a concept carrying only its required attributes.
pub open spec fn empty_concept(guid: Guid, date_of_creation: DateTime) -> ConceptModel {
    ConceptModel {
        guid,
        date_of_creation,
        about: None,
            names: Seq::empty(),
            definitions: Seq::empty(),
            descriptions: Seq::empty(),
            examples: Seq::empty(),
            reference_document_refs: Seq::empty(),
            similar_to_refs: Seq::empty(),
            replaced_objects_refs: Seq::empty(),
            dictionary_refs: Seq::empty(),
            languages_of_creator: Seq::empty(),
            countries_of_origin: Seq::empty(),
            visual_representations: Seq::empty(),
            major_versions: Seq::empty(),
            minor_versions: Seq::empty(),
            statuses: Seq::empty(),
            deprecation_explanations: Seq::empty(),
    }
}

impl Concept {
    /// Creates a concept with one name and one definition.
    pub fn new(
        guid: Guid,
        date_of_creation: DateTime,
        first_name: MultiLanguageText,
        definition: MultiLanguageText,
    ) -> (r: Self)
        ensures
            r@ == (ConceptModel {
                names: seq![first_name],
                definitions: seq![definition],
                ..empty_concept(guid, date_of_creation)
            }),
    {
        let mut concept = Self::from_identity(guid, date_of_creation);
        concept.names.push(first_name);
        concept.definitions.push(definition);
        concept
    }

    /// Assembles a concept from every attribute and child list.
    pub(crate) fn assembled(
        guid: Guid,
        date_of_creation: DateTime,
        about: Option<AnyUri>,
        names: Vec<MultiLanguageText>,
        definitions: Vec<MultiLanguageText>,
        descriptions: Vec<MultiLanguageText>,
        examples: Vec<MultiLanguageText>,
        reference_document_refs: Vec<Reference>,
        similar_to_refs: Vec<Reference>,
        replaced_objects_refs: Vec<Reference>,
        dictionary_refs: Vec<Reference>,
        languages_of_creator: Vec<Language>,
        countries_of_origin: Vec<String>,
        visual_representations: Vec<Base64Binary>,
        major_versions: Vec<NonNegativeInteger>,
        minor_versions: Vec<NonNegativeInteger>,
        statuses: Vec<String>,
        deprecation_explanations: Vec<String>,
    ) -> (r: Self)
        ensures
            r@ == (ConceptModel {
                guid,
                date_of_creation,
                about,
                names: names@,
                definitions: definitions@,
                descriptions: descriptions@,
                examples: examples@,
                reference_document_refs: reference_document_refs@,
                similar_to_refs: similar_to_refs@,
                replaced_objects_refs: replaced_objects_refs@,
                dictionary_refs: dictionary_refs@,
                languages_of_creator: languages_of_creator@,
                countries_of_origin: countries_of_origin@,
                visual_representations: visual_representations@,
                major_versions: major_versions@,
                minor_versions: minor_versions@,
                statuses: statuses@,
                deprecation_explanations: deprecation_explanations@,
            }),
    {
        Concept {
            guid,
            date_of_creation,
            about,
            names,
            definitions,
            descriptions,
            examples,
            reference_document_refs,
            similar_to_refs,
            replaced_objects_refs,
            dictionary_refs,
            languages_of_creator,
            countries_of_origin,
            visual_representations,
            major_versions,
            minor_versions,
            statuses,
            deprecation_explanations,
        }
    }

    /// Creates a concept carrying only its required attributes.
    ///
    /// It is not schema-valid until at least one child is added.
    pub fn from_identity(guid: Guid, date_of_creation: DateTime) -> (r: Self)
        ensures
            r@ == empty_concept(guid, date_of_creation),
    {
        Concept {
            guid,
            date_of_creation,
            about: None,
            names: Vec::new(),
            definitions: Vec::new(),
            descriptions: Vec::new(),
            examples: Vec::new(),
            reference_document_refs: Vec::new(),
            similar_to_refs: Vec::new(),
            replaced_objects_refs: Vec::new(),
            dictionary_refs: Vec::new(),
            languages_of_creator: Vec::new(),
            countries_of_origin: Vec::new(),
            visual_representations: Vec::new(),
            major_versions: Vec::new(),
            minor_versions: Vec::new(),
            statuses: Vec::new(),
            deprecation_explanations: Vec::new(),
        }
    }

    pub fn guid(&self) -> (r: &Guid)
        ensures
            *r == self@.guid,
    {
        &self.guid
    }

    pub fn date_of_creation(&self) -> (r: &str)
        ensures
            r@ == self@.date_of_creation@,
            spec_is_datetime(r@) && spec_collapse(r@) == r@,
    {
        self.date_of_creation.as_str()
    }

    /// The `dt:about` attribute, when present.
    pub fn about(&self) -> (r: Option<&str>)
        ensures
            r is Some <==> self@.about is Some,
            r matches Some(u) ==> u@ == self@.about->0@,
            r matches Some(u) ==> spec_is_any_uri(u@) && spec_collapse(u@) == u@,
    {
        match &self.about {
            Some(u) => Some(u.as_str()),
            None => None,
        }
    }

    pub fn set_about(&mut self, value: Option<AnyUri>)
        ensures
            final(self)@ == (ConceptModel { about: value, ..old(self)@ }),
    {
        self.about = value;
    }

    /// The first `Definition`, when present.
    pub fn definition(&self) -> (r: Option<&MultiLanguageText>)
        ensures
            r is Some <==> self@.definitions.len() > 0,
            r matches Some(d) ==> *d == self@.definitions[0],
    {
        if self.definitions.len() > 0 {
            Some(&self.definitions[0])
        } else {
            None
        }
    }

    /// Replaces every definition with `definition`.
    pub fn set_definition(&mut self, definition: MultiLanguageText)
        ensures
            final(self)@ == (ConceptModel { definitions: seq![definition], ..old(self)@ }),
    {
        self.definitions.clear();
        self.definitions.push(definition);
    }

    /// `ReferenceDocumentRef` children (older name of `reference_document_refs`).
    pub fn references(&self) -> (r: &[Reference])
        ensures
            r@ == self@.reference_document_refs,
    {
        self.reference_document_refs.as_slice()
    }

    /// Appends a `ReferenceDocumentRef` (older name of `add_reference_document_ref`).
    pub fn add_reference(&mut self, reference: Reference)
        ensures
            final(self)@ == (ConceptModel {
                reference_document_refs: old(self)@.reference_document_refs.push(reference),
                ..old(self)@
            }),
    {
        self.reference_document_refs.push(reference);
    }

    /// `Name` children.
    pub fn names(&self) -> (r: &[MultiLanguageText])
        ensures
            r@ == self@.names,
    {
        self.names.as_slice()
    }

    /// Appends to the `Name` children
    pub fn add_name(&mut self, value: MultiLanguageText)
        ensures
            final(self)@ == (ConceptModel { names: old(self)@.names.push(value), ..old(self)@ }),
    {
        self.names.push(value);
    }

    /// `Definition` children.
    pub fn definitions(&self) -> (r: &[MultiLanguageText])
        ensures
            r@ == self@.definitions,
    {
        self.definitions.as_slice()
    }

    /// Appends to the `Definition` children
    pub fn add_definition(&mut self, value: MultiLanguageText)
        ensures
            final(self)@ == (ConceptModel { definitions: old(self)@.definitions.push(value), ..old(self)@ }),
    {
        self.definitions.push(value);
    }

    /// `Description` children.
    pub fn descriptions(&self) -> (r: &[MultiLanguageText])
        ensures
            r@ == self@.descriptions,
    {
        self.descriptions.as_slice()
    }

    /// Appends to the `Description` children
    pub fn add_description(&mut self, value: MultiLanguageText)
        ensures
            final(self)@ == (ConceptModel { descriptions: old(self)@.descriptions.push(value), ..old(self)@ }),
    {
        self.descriptions.push(value);
    }

    /// `Example` children.
    pub fn examples(&self) -> (r: &[MultiLanguageText])
        ensures
            r@ == self@.examples,
    {
        self.examples.as_slice()
    }

    /// Appends to the `Example` children
    pub fn add_example(&mut self, value: MultiLanguageText)
        ensures
            final(self)@ == (ConceptModel { examples: old(self)@.examples.push(value), ..old(self)@ }),
    {
        self.examples.push(value);
    }

    /// `ReferenceDocumentRef` children.
    pub fn reference_document_refs(&self) -> (r: &[Reference])
        ensures
            r@ == self@.reference_document_refs,
    {
        self.reference_document_refs.as_slice()
    }

    /// Appends to the `ReferenceDocumentRef` children
    pub fn add_reference_document_ref(&mut self, value: Reference)
        ensures
            final(self)@ == (ConceptModel { reference_document_refs: old(self)@.reference_document_refs.push(value), ..old(self)@ }),
    {
        self.reference_document_refs.push(value);
    }

    /// `SimilarToRef` children.
    pub fn similar_to_refs(&self) -> (r: &[Reference])
        ensures
            r@ == self@.similar_to_refs,
    {
        self.similar_to_refs.as_slice()
    }

    /// Appends to the `SimilarToRef` children
    pub fn add_similar_to_ref(&mut self, value: Reference)
        ensures
            final(self)@ == (ConceptModel { similar_to_refs: old(self)@.similar_to_refs.push(value), ..old(self)@ }),
    {
        self.similar_to_refs.push(value);
    }

    /// `ReplacedObjectsRef` children.
    pub fn replaced_objects_refs(&self) -> (r: &[Reference])
        ensures
            r@ == self@.replaced_objects_refs,
    {
        self.replaced_objects_refs.as_slice()
    }

    /// Appends to the `ReplacedObjectsRef` children
    pub fn add_replaced_objects_ref(&mut self, value: Reference)
        ensures
            final(self)@ == (ConceptModel { replaced_objects_refs: old(self)@.replaced_objects_refs.push(value), ..old(self)@ }),
    {
        self.replaced_objects_refs.push(value);
    }

    /// `DictionaryRef` children.
    pub fn dictionary_refs(&self) -> (r: &[Reference])
        ensures
            r@ == self@.dictionary_refs,
    {
        self.dictionary_refs.as_slice()
    }

    /// Appends to the `DictionaryRef` children
    pub fn add_dictionary_ref(&mut self, value: Reference)
        ensures
            final(self)@ == (ConceptModel { dictionary_refs: old(self)@.dictionary_refs.push(value), ..old(self)@ }),
    {
        self.dictionary_refs.push(value);
    }

    /// `LanguageOfCreator` children.
    pub fn languages_of_creator(&self) -> (r: &[Language])
        ensures
            r@ == self@.languages_of_creator,
    {
        self.languages_of_creator.as_slice()
    }

    /// Appends to the `LanguageOfCreator` children
    pub fn add_language_of_creator(&mut self, value: Language)
        ensures
            final(self)@ == (ConceptModel { languages_of_creator: old(self)@.languages_of_creator.push(value), ..old(self)@ }),
    {
        self.languages_of_creator.push(value);
    }

    /// `CountryOfOrigin` children.
    pub fn countries_of_origin(&self) -> (r: &[String])
        ensures
            r@ == self@.countries_of_origin,
    {
        self.countries_of_origin.as_slice()
    }

    /// Appends to the `CountryOfOrigin` children
    pub fn add_country_of_origin(&mut self, value: String)
        ensures
            final(self)@ == (ConceptModel { countries_of_origin: old(self)@.countries_of_origin.push(value), ..old(self)@ }),
    {
        self.countries_of_origin.push(value);
    }

    /// `VisualRepresentation` children.
    pub fn visual_representations(&self) -> (r: &[Base64Binary])
        ensures
            r@ == self@.visual_representations,
    {
        self.visual_representations.as_slice()
    }

    /// Appends to the `VisualRepresentation` children
    pub fn add_visual_representation(&mut self, value: Base64Binary)
        ensures
            final(self)@ == (ConceptModel { visual_representations: old(self)@.visual_representations.push(value), ..old(self)@ }),
    {
        self.visual_representations.push(value);
    }

    /// `MajorVersion` children.
    pub fn major_versions(&self) -> (r: &[NonNegativeInteger])
        ensures
            r@ == self@.major_versions,
    {
        self.major_versions.as_slice()
    }

    /// Appends to the `MajorVersion` children
    pub fn add_major_version(&mut self, value: NonNegativeInteger)
        ensures
            final(self)@ == (ConceptModel { major_versions: old(self)@.major_versions.push(value), ..old(self)@ }),
    {
        self.major_versions.push(value);
    }

    /// `MinorVersion` children.
    pub fn minor_versions(&self) -> (r: &[NonNegativeInteger])
        ensures
            r@ == self@.minor_versions,
    {
        self.minor_versions.as_slice()
    }

    /// Appends to the `MinorVersion` children
    pub fn add_minor_version(&mut self, value: NonNegativeInteger)
        ensures
            final(self)@ == (ConceptModel { minor_versions: old(self)@.minor_versions.push(value), ..old(self)@ }),
    {
        self.minor_versions.push(value);
    }

    /// `Status` children.
    pub fn statuses(&self) -> (r: &[String])
        ensures
            r@ == self@.statuses,
    {
        self.statuses.as_slice()
    }

    /// Appends to the `Status` children
    pub fn add_status(&mut self, value: String)
        ensures
            final(self)@ == (ConceptModel { statuses: old(self)@.statuses.push(value), ..old(self)@ }),
    {
        self.statuses.push(value);
    }

    /// `DeprecationExplanation` children.
    pub fn deprecation_explanations(&self) -> (r: &[String])
        ensures
            r@ == self@.deprecation_explanations,
    {
        self.deprecation_explanations.as_slice()
    }

    /// Appends to the `DeprecationExplanation` children
    pub fn add_deprecation_explanation(&mut self, value: String)
        ensures
            final(self)@ == (ConceptModel { deprecation_explanations: old(self)@.deprecation_explanations.push(value), ..old(self)@ }),
    {
        self.deprecation_explanations.push(value);
    }

    pub(crate) fn date_of_creation_value(&self) -> (r: &DateTime)
        ensures
            *r == self@.date_of_creation,
    {
        &self.date_of_creation
    }

    pub(crate) fn about_value(&self) -> (r: Option<&AnyUri>)
        ensures
            r == match self@.about {
                Some(u) => Some(&u),
                None => None::<&AnyUri>,
            },
    {
        match &self.about {
            Some(u) => Some(u),
            None => None,
        }
    }
}

// ---------------------------------------------------------------------------
// Forward-compatible enumerations
// ---------------------------------------------------------------------------

/// ISO 23387 property data-type names with forward-compatible retention.
#[derive(Debug, Clone, PartialEq, Eq, Hash)]
pub enum DataTypeName {
    Boolean,
    Integer,
    Rational,
    Real,
    Complex,
    String,
    DateTime,
    /// A future or extension value retained verbatim.
    Other(String),
}

/// Wire spelling of a data-type name.
pub open spec fn data_type_name_str(n: DataTypeName) -> Seq<char> {
    match n {
        DataTypeName::Boolean => "BOOLEAN"@,
        DataTypeName::Integer => "INTEGER"@,
        DataTypeName::Rational => "RATIONAL"@,
        DataTypeName::Real => "REAL"@,
        DataTypeName::Complex => "COMPLEX"@,
        DataTypeName::String => "STRING"@,
        DataTypeName::DateTime => "DATETIME"@,
        DataTypeName::Other(value) => value@,
    }
}

/// Whether `s` spells one of the data-type names the standard lists.
pub open spec fn is_known_data_type_name(s: Seq<char>) -> bool {
    s == "BOOLEAN"@ || s == "INTEGER"@ || s == "RATIONAL"@ || s == "REAL"@ || s == "COMPLEX"@ || s
        == "STRING"@ || s == "DATETIME"@
}

impl DataTypeName {
    /// Wire spelling.
    pub fn as_str(&self) -> (r: &str)
        ensures
            r@ == data_type_name_str(*self),
    {
        match self {
            DataTypeName::Boolean => "BOOLEAN",
            DataTypeName::Integer => "INTEGER",
            DataTypeName::Rational => "RATIONAL",
            DataTypeName::Real => "REAL",
            DataTypeName::Complex => "COMPLEX",
            DataTypeName::String => "STRING",
            DataTypeName::DateTime => "DATETIME",
            DataTypeName::Other(value) => value.as_str(),
        }
    }

    /// Classifies a wire spelling; unknown spellings are retained as `Other`.
    pub fn from(value: &str) -> (r: Self)
        ensures
            data_type_name_str(r) == value@,
            r is Other <==> !is_known_data_type_name(value@),
    {
        if str_eq(value, "BOOLEAN") {
            DataTypeName::Boolean
        } else if str_eq(value, "INTEGER") {
            DataTypeName::Integer
        } else if str_eq(value, "RATIONAL") {
            DataTypeName::Rational
        } else if str_eq(value, "REAL") {
            DataTypeName::Real
        } else if str_eq(value, "COMPLEX") {
            DataTypeName::Complex
        } else if str_eq(value, "STRING") {
            DataTypeName::String
        } else if str_eq(value, "DATETIME") {
            DataTypeName::DateTime
        } else {
            DataTypeName::Other(String::from_str(value))
        }
    }
}

/// Unit scale with forward-compatible retention.
#[derive(Debug, Clone, PartialEq, Eq, Hash)]
pub enum Scale {
    Linear,
    Logarithmic,
    Other(String),
}

pub open spec fn scale_str(n: Scale) -> Seq<char> {
    match n {
        Scale::Linear => "LINEAR"@,
        Scale::Logarithmic => "LOGARITHMIC"@,
        Scale::Other(value) => value@,
    }
}

impl Scale {
    /// Wire spelling; the inverse of `from`.
    pub fn as_str(&self) -> (r: &str)
        ensures
            r@ == scale_str(*self),
    {
        match self {
            Scale::Linear => "LINEAR",
            Scale::Logarithmic => "LOGARITHMIC",
            Scale::Other(value) => value.as_str(),
        }
    }

    /// Classifies a wire spelling; unknown spellings are retained as `Other`.
    pub fn from(value: &str) -> (r: Self)
        ensures
            scale_str(r) == value@,
            r is Other <==> !(value@ == "LINEAR"@ || value@ == "LOGARITHMIC"@),
    {
        if str_eq(value, "LINEAR") {
            Scale::Linear
        } else if str_eq(value, "LOGARITHMIC") {
            Scale::Logarithmic
        } else {
            Scale::Other(String::from_str(value))
        }
    }
}

/// Unit logarithm base with forward-compatible retention.
#[derive(Debug, Clone, PartialEq, Eq, Hash)]
pub enum Base {
    One,
    Two,
    E,
    Pi,
    Ten,
    Other(String),
}

pub open spec fn base_str(n: Base) -> Seq<char> {
    match n {
        Base::One => "ONE"@,
        Base::Two => "TWO"@,
        Base::E => "E"@,
        Base::Pi => "PI"@,
        Base::Ten => "TEN"@,
        Base::Other(value) => value@,
    }
}

impl Base {
    /// Wire spelling; the inverse of `from`.
    pub fn as_str(&self) -> (r: &str)
        ensures
            r@ == base_str(*self),
    {
        match self {
            Base::One => "ONE",
            Base::Two => "TWO",
            Base::E => "E",
            Base::Pi => "PI",
            Base::Ten => "TEN",
            Base::Other(value) => value.as_str(),
        }
    }

    /// Classifies a wire spelling; unknown spellings are retained as `Other`.
    pub fn from(value: &str) -> (r: Self)
        ensures
            base_str(r) == value@,
            r is Other <==> !(value@ == "ONE"@ || value@ == "TWO"@ || value@ == "E"@ || value@
                == "PI"@ || value@ == "TEN"@),
    {
        if str_eq(value, "ONE") {
            Base::One
        } else if str_eq(value, "TWO") {
            Base::Two
        } else if str_eq(value, "E") {
            Base::E
        } else if str_eq(value, "PI") {
            Base::Pi
        } else if str_eq(value, "TEN") {
            Base::Ten
        } else {
            Base::Other(String::from_str(value))
        }
    }
}

} // verus!
