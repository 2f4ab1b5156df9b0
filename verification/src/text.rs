//! Character-level helpers shared by the lexical contracts, the XML reader
//! and the writers.

use vstd::prelude::*;

verus! {

/// The four characters XML treats as white space.
pub open spec fn is_xml_space(c: char) -> bool {
    c == ' ' || c == '\t' || c == '\r' || c == '\n'
}

pub open spec fn is_digit(c: char) -> bool {
    '0' <= c && c <= '9'
}

pub open spec fn is_alpha(c: char) -> bool {
    ('a' <= c && c <= 'z') || ('A' <= c && c <= 'Z')
}

pub open spec fn is_alnum(c: char) -> bool {
    is_alpha(c) || is_digit(c)
}

pub open spec fn is_hex(c: char) -> bool {
    is_digit(c) || ('a' <= c && c <= 'f') || ('A' <= c && c <= 'F')
}

/// XML 1.0 `Char` production.
pub open spec fn is_xml_char(c: char) -> bool {
    c == '\u{9}' || c == '\u{A}' || c == '\u{D}' || ('\u{20}' <= c && c <= '\u{D7FF}') || (
    '\u{E000}' <= c && c <= '\u{FFFD}') || ('\u{10000}' <= c && c <= '\u{10FFFF}')
}

pub fn xml_space(c: char) -> (r: bool)
    ensures
        r == is_xml_space(c),
{
    c == ' ' || c == '\t' || c == '\r' || c == '\n'
}

pub fn digit(c: char) -> (r: bool)
    ensures
        r == is_digit(c),
{
    '0' <= c && c <= '9'
}

pub fn alpha(c: char) -> (r: bool)
    ensures
        r == is_alpha(c),
{
    ('a' <= c && c <= 'z') || ('A' <= c && c <= 'Z')
}

pub fn alnum(c: char) -> (r: bool)
    ensures
        r == is_alnum(c),
{
    alpha(c) || digit(c)
}

pub fn hex(c: char) -> (r: bool)
    ensures
        r == is_hex(c),
{
    digit(c) || ('a' <= c && c <= 'f') || ('A' <= c && c <= 'F')
}

pub fn xml_char(c: char) -> (r: bool)
    ensures
        r == is_xml_char(c),
{
    c == '\u{9}' || c == '\u{A}' || c == '\u{D}' || ('\u{20}' <= c && c <= '\u{D7FF}') || (
    '\u{E000}' <= c && c <= '\u{FFFD}') || ('\u{10000}' <= c && c <= '\u{10FFFF}')
}

/// The characters of a string slice, in order.
pub fn chars_of(s: &str) -> (r: Vec<char>)
    ensures
        r@ == s@,
{
    let mut out: Vec<char> = Vec::new();
    for c in it: s.chars()
        invariant
            out@ == it.seq().take(it.index() as int),
            it.seq() == s@,
    {
        out.push(c);
    }
    out
}

/// Appends one character (std `String::push`).
#[verifier::external_body]
pub fn push_char(s: &mut String, c: char)
    ensures
        final(s)@ == old(s)@.push(c),
{
    s.push(c);
}

/// Character-wise equality of two string slices.
pub fn str_eq(a: &str, b: &str) -> (r: bool)
    ensures
        r == (a@ == b@),
{
    let x = chars_of(a);
    let y = chars_of(b);
    if x.len() != y.len() {
        return false;
    }
    let mut i: usize = 0;
    while i < x.len()
        invariant
            i <= x@.len(),
            x@.len() == y@.len(),
            x@ == a@,
            y@ == b@,
            forall|k: int| 0 <= k < i ==> x@[k] == y@[k],
        decreases x.len() - i,
    {
        if x[i] != y[i] {
            return false;
        }
        i = i + 1;
    }
    assert(x@ =~= y@);
    true
}

/// A new string holding `v[start..end]`.
pub fn string_of(v: &[char], start: usize, end: usize) -> (r: String)
    requires
        start <= end <= v@.len(),
    ensures
        r@ == v@.subrange(start as int, end as int),
{
    let mut out = String::new();
    let mut i = start;
    while i < end
        invariant
            start <= i <= end <= v@.len(),
            out@ == v@.subrange(start as int, i as int),
        decreases end - i,
    {
        push_char(&mut out, v[i]);
        i = i + 1;
    }
    out
}

/// A new string holding all of `v`.
pub fn string_from_chars(v: &Vec<char>) -> (r: String)
    ensures
        r@ == v@,
{
    let r = string_of(v.as_slice(), 0, v.len());
    assert(v@.subrange(0, v@.len() as int) == v@);
    r
}

/// One step of XML Schema `collapse` white-space processing: `out` is the
/// collapsed prefix and `pending` records a white-space run after content.
pub open spec fn collapse_from(out: Seq<char>, pending: bool, s: Seq<char>) -> Seq<char>
    decreases s.len(),
{
    if s.len() == 0 {
        out
    } else if is_xml_space(s[0]) {
        collapse_from(out, out.len() > 0, s.drop_first())
    } else if pending {
        collapse_from(out.push(' ').push(s[0]), false, s.drop_first())
    } else {
        collapse_from(out.push(s[0]), false, s.drop_first())
    }
}

/// XML Schema `collapse`: leading and trailing white space removed, every
/// inner run of white space replaced by one space.
pub open spec fn spec_collapse(s: Seq<char>) -> Seq<char> {
    collapse_from(Seq::empty(), false, s)
}

/// Applies XML Schema `collapse` to `value`.
pub fn collapse_whitespace(value: &str) -> (r: Vec<char>)
    ensures
        r@ == spec_collapse(value@),
{
    let chars = chars_of(value);
    let mut out: Vec<char> = Vec::new();
    let mut pending = false;
    let mut i: usize = 0;
    assert(chars@.skip(0) == chars@);
    while i < chars.len()
        invariant
            i <= chars@.len(),
            chars@ == value@,
            spec_collapse(value@) == collapse_from(out@, pending, chars@.skip(i as int)),
        decreases chars.len() - i,
    {
        let c = chars[i];
        assert(chars@.skip(i as int).drop_first() == chars@.skip(i + 1));
        assert(chars@.skip(i as int)[0] == c);
        if xml_space(c) {
            pending = out.len() > 0;
        } else {
            if pending {
                out.push(' ');
                pending = false;
            }
            out.push(c);
        }
        i = i + 1;
    }
    out
}

/// Collapsed text: its only white space is single spaces between other
/// characters.
pub open spec fn is_collapsed(s: Seq<char>) -> bool {
    forall|i: int|
        0 <= i < s.len() && is_xml_space(#[trigger] s[i]) ==> s[i] == ' ' && 0 < i < s.len() - 1 && !is_xml_space(
            s[i - 1],
        ) && !is_xml_space(s[i + 1])
}

/// Collapsing from a collapsed prefix yields collapsed text.
proof fn lemma_collapse_from_collapsed(out: Seq<char>, pending: bool, s: Seq<char>)
    requires
        is_collapsed(out),
        out.len() == 0 || !is_xml_space(out.last()),
        pending ==> out.len() > 0,
    ensures
        is_collapsed(collapse_from(out, pending, s)),
    decreases s.len(),
{
    if s.len() > 0 {
        let c = s[0];
        if is_xml_space(c) {
            lemma_collapse_from_collapsed(out, out.len() > 0, s.drop_first());
        } else if pending {
            let next = out.push(' ').push(c);
            assert forall|i: int| 0 <= i < next.len() && is_xml_space(#[trigger] next[i]) implies next[i] == ' ' && 0 < i
                < next.len() - 1 && !is_xml_space(next[i - 1]) && !is_xml_space(next[i + 1]) by {
                if i < out.len() {
                    assert(next[i] == out[i]);
                    if i + 1 < out.len() {
                        assert(next[i + 1] == out[i + 1]);
                    } else {
                        assert(!is_xml_space(out.last()));
                    }
                    assert(next[i - 1] == out[i - 1]);
                } else {
                    assert(i == out.len());
                    assert(next[i - 1] == out.last());
                }
            }
            lemma_collapse_from_collapsed(next, false, s.drop_first());
        } else {
            let next = out.push(c);
            assert forall|i: int| 0 <= i < next.len() && is_xml_space(#[trigger] next[i]) implies next[i] == ' ' && 0 < i
                < next.len() - 1 && !is_xml_space(next[i - 1]) && !is_xml_space(next[i + 1]) by {
                assert(i < out.len());
                assert(next[i] == out[i]);
                assert(next[i - 1] == out[i - 1]);
                if i + 1 < out.len() {
                    assert(next[i + 1] == out[i + 1]);
                } else {
                    assert(!is_xml_space(out.last()));
                }
            }
            lemma_collapse_from_collapsed(next, false, s.drop_first());
        }
    }
}

/// Collapsed text, continued after a prefix that ends in other than white
/// space, collapses to itself.
proof fn lemma_collapse_from_keeps(out: Seq<char>, t: Seq<char>)
    requires
        forall|i: int|
            0 <= i < t.len() && is_xml_space(#[trigger] t[i]) ==> t[i] == ' ' && i < t.len() - 1 && !is_xml_space(t[i + 1])
                && (if i > 0 { !is_xml_space(t[i - 1]) } else { out.len() > 0 && !is_xml_space(out.last()) }),
    ensures
        collapse_from(out, false, t) == out + t,
    decreases t.len(),
{
    if t.len() == 0 {
        assert(out + t =~= out);
    } else if is_xml_space(t[0]) {
        let rest = t.drop_first();
        assert(!is_xml_space(t[1]));
        let next = out.push(' ').push(t[1]);
        assert(rest[0] == t[1]);
        assert(collapse_from(out, true, rest) == collapse_from(next, false, rest.drop_first()));
        lemma_collapse_from_keeps(next, rest.drop_first());
        assert(next + rest.drop_first() =~= out + t);
    } else {
        let next = out.push(t[0]);
        let rest = t.drop_first();
        assert forall|i: int| 0 <= i < rest.len() && is_xml_space(#[trigger] rest[i]) implies rest[i] == ' ' && i < rest.len()
            - 1 && !is_xml_space(rest[i + 1]) && (if i > 0 { !is_xml_space(rest[i - 1]) } else { next.len() > 0
            && !is_xml_space(next.last()) }) by {
            assert(rest[i] == t[i + 1]);
            assert(rest[i + 1] == t[i + 2]);
            if i > 0 {
                assert(rest[i - 1] == t[i]);
            }
        }
        lemma_collapse_from_keeps(next, rest);
        assert(next + rest =~= out + t);
    }
}

/// Collapsing twice collapses once: a collapsed lexeme is its own collapse.
pub proof fn lemma_collapse_idempotent(s: Seq<char>)
    ensures
        spec_collapse(spec_collapse(s)) == spec_collapse(s),
{
    let c = spec_collapse(s);
    lemma_collapse_from_collapsed(Seq::empty(), false, s);
    lemma_collapse_from_keeps(Seq::empty(), c);
    assert(Seq::<char>::empty() + c =~= c);
}

} // verus!
