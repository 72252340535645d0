//! The active interpreter's version, read from package metadata text.
//!
//! The metadata is a sequence of `key : value` lines; the line whose key
//! starts with `Version` carries the version as
//! `<major>.<minor>.<release>-<build>`, four decimal numbers. A missing
//! line or a malformed value is an environment fault: the parser returns
//! nothing and the caller aborts the scan.
use vstd::prelude::*;

use crate::bytes::COLON;
use crate::bytes::DASH;
use crate::bytes::DOT;
use crate::bytes::dec_repr;
use crate::bytes::dec_value;
use crate::bytes::find_byte;
use crate::bytes::find_from;
use crate::bytes::is_digit;
use crate::bytes::is_prefix;
use crate::bytes::is_u8_decimal;
use crate::bytes::lemma_dec_repr_value;
use crate::bytes::lemma_find_from;
use crate::bytes::lemma_find_from_at;
use crate::bytes::parse_u8_dec;
use crate::bytes::push_decimal;
use crate::bytes::spec_trim_start;
use crate::bytes::starts_with;
use crate::bytes::subvec;
use crate::bytes::trim_start;

verus! {

/// The interpreter runtime's version: four small integers, used for
/// library-directory matching (major.minor) and display.
#[derive(Clone, Copy, PartialEq, Eq, Structural, Debug)]
pub struct PythonVersion {
    pub major: u8,
    pub minor: u8,
    pub release: u8,
    pub build: u8,
}

/// The bytes of `Version`, the metadata key that carries the version.
pub open spec fn version_key() -> Seq<u8> {
    seq![86u8, 101u8, 114u8, 115u8, 105u8, 111u8, 110u8]
}

pub open spec fn is_version_line(l: Seq<u8>) -> bool {
    is_prefix(version_key(), l)
}

/// Index of the first version line at or after `i`; `lines.len()` if none.
pub open spec fn first_version_line(lines: Seq<Seq<u8>>, i: int) -> int
    decreases lines.len() - i when 0 <= i <= lines.len()
{
    if i >= lines.len() {
        lines.len() as int
    } else if is_version_line(lines[i]) {
        i
    } else {
        first_version_line(lines, i + 1)
    }
}

/// The value of a `key : value` line: the text between the first colon and
/// the following colon or line end, with leading whitespace removed.
/// A line without a colon has no value.
pub open spec fn field_after_colon(l: Seq<u8>) -> Option<Seq<u8>> {
    let c1 = find_from(l, 0, COLON);
    if c1 == l.len() {
        None
    } else {
        Some(spec_trim_start(l.subrange(c1 + 1, find_from(l, c1 + 1, COLON))))
    }
}

/// The version text of a metadata listing: the value of the first version
/// line. Absent when no line has the key, or the line has no value.
pub open spec fn spec_version_field(lines: Seq<Seq<u8>>) -> Option<Seq<u8>> {
    let i = first_version_line(lines, 0);
    if i == lines.len() {
        None
    } else {
        field_after_colon(lines[i])
    }
}

/// The version that `<major>.<minor>.<release>-<build>` denotes: the text
/// splits at its first two dots and the following dash, and each of the four
/// fields is a decimal `u8`. Anything else is malformed.
pub open spec fn spec_parse_version(s: Seq<u8>) -> Option<PythonVersion> {
    let i1 = find_from(s, 0, DOT);
    if i1 == s.len() {
        None
    } else {
        let i2 = find_from(s, i1 + 1, DOT);
        if i2 == s.len() {
            None
        } else {
            let i3 = find_from(s, i2 + 1, DASH);
            if i3 == s.len() {
                None
            } else {
                let f1 = s.subrange(0, i1);
                let f2 = s.subrange(i1 + 1, i2);
                let f3 = s.subrange(i2 + 1, i3);
                let f4 = s.subrange(i3 + 1, s.len() as int);
                if is_u8_decimal(f1) && is_u8_decimal(f2) && is_u8_decimal(f3) && is_u8_decimal(
                    f4,
                ) {
                    Some(
                        PythonVersion {
                            major: dec_value(f1) as u8,
                            minor: dec_value(f2) as u8,
                            release: dec_value(f3) as u8,
                            build: dec_value(f4) as u8,
                        },
                    )
                } else {
                    None
                }
            }
        }
    }
}

/// The version carried by a whole metadata listing.
pub open spec fn spec_python_version(lines: Seq<Seq<u8>>) -> Option<PythonVersion> {
    match spec_version_field(lines) {
        Option::None => Option::None,
        Option::Some(f) => spec_parse_version(f),
    }
}

fn version_key_bytes() -> (r: Vec<u8>)
    ensures
        r@ == version_key(),
{
    let mut r: Vec<u8> = Vec::new();
    r.push(86);
    r.push(101);
    r.push(114);
    r.push(115);
    r.push(105);
    r.push(111);
    r.push(110);
    proof {
        assert(r@ =~= version_key());
    }
    r
}

/// Parses a version text of the form `<major>.<minor>.<release>-<build>`.
pub fn parse_version(s: &Vec<u8>) -> (r: Option<PythonVersion>)
    ensures
        r == spec_parse_version(s@),
{
    proof {
        lemma_find_from(s@, 0, DOT);
    }
    let i1 = find_byte(s, 0, DOT);
    if i1 == s.len() {
        return None;
    }
    proof {
        lemma_find_from(s@, i1 + 1, DOT);
    }
    let i2 = find_byte(s, i1 + 1, DOT);
    if i2 == s.len() {
        return None;
    }
    proof {
        lemma_find_from(s@, i2 + 1, DASH);
    }
    let i3 = find_byte(s, i2 + 1, DASH);
    if i3 == s.len() {
        return None;
    }
    let f1 = subvec(s, 0, i1);
    let f2 = subvec(s, i1 + 1, i2);
    let f3 = subvec(s, i2 + 1, i3);
    let f4 = subvec(s, i3 + 1, s.len());
    match (parse_u8_dec(&f1), parse_u8_dec(&f2), parse_u8_dec(&f3), parse_u8_dec(&f4)) {
        (Some(major), Some(minor), Some(release), Some(build)) => Some(
            PythonVersion { major, minor, release, build },
        ),
        _ => None,
    }
}

/// Finds the version text in a metadata listing, one line per element.
pub fn version_field(lines: &Vec<Vec<u8>>) -> (r: Option<Vec<u8>>)
    ensures
        r is Some <==> spec_version_field(lines.deep_view()) is Some,
        r is Some ==> r->Some_0@ == spec_version_field(lines.deep_view())->Some_0,
{
    let ghost lv = lines.deep_view();
    let key = version_key_bytes();
    let mut i: usize = 0;
    while i < lines.len()
        invariant
            0 <= i <= lines@.len(),
            lv == lines.deep_view(),
            key@ == version_key(),
            first_version_line(lv, 0) == first_version_line(lv, i as int),
        decreases lines@.len() - i,
    {
        let line = &lines[i];
        proof {
            assert(lv[i as int] =~= line@);
        }
        if starts_with(line, &key) {
            proof {
                lemma_find_from(line@, 0, COLON);
            }
            let c1 = find_byte(line, 0, COLON);
            if c1 == line.len() {
                return None;
            }
            proof {
                lemma_find_from(line@, c1 + 1, COLON);
            }
            let c2 = find_byte(line, c1 + 1, COLON);
            let field = trim_start(&subvec(line, c1 + 1, c2));
            return Some(field);
        }
        i = i + 1;
    }
    None
}

/// Reads the active interpreter's version out of its package metadata.
/// Yields nothing exactly when the metadata names no version or the
/// version text is malformed.
pub fn parse_python_version(info_lines: &Vec<Vec<u8>>) -> (r: Option<PythonVersion>)
    ensures
        r == spec_python_version(info_lines.deep_view()),
{
    match version_field(info_lines) {
        None => None,
        Some(field) => parse_version(&field),
    }
}

/// `<major>.<minor>.<release>-<build>` as text, for display.
pub open spec fn spec_version_text(v: PythonVersion) -> Seq<u8> {
    dec_repr(v.major as nat) + seq![DOT] + dec_repr(v.minor as nat) + seq![DOT] + dec_repr(
        v.release as nat,
    ) + seq![DASH] + dec_repr(v.build as nat)
}

/// Law: rendering a version for display and parsing the text back yields
/// the version unchanged.
pub proof fn lemma_version_text_round_trip(v: PythonVersion)
    ensures
        spec_parse_version(spec_version_text(v)) == Some(v),
{
    let a = dec_repr(v.major as nat);
    let b = dec_repr(v.minor as nat);
    let c = dec_repr(v.release as nat);
    let d = dec_repr(v.build as nat);
    lemma_dec_repr_value(v.major as nat);
    lemma_dec_repr_value(v.minor as nat);
    lemma_dec_repr_value(v.release as nat);
    lemma_dec_repr_value(v.build as nat);
    let s = spec_version_text(v);
    let i1 = a.len() as int;
    let i2: int = i1 + 1 + b.len();
    let i3: int = i2 + 1 + c.len();
    assert(s.len() == a.len() + 1 + b.len() + 1 + c.len() + 1 + d.len());
    assert(s.subrange(0, i1) =~= a);
    assert(s[i1] == DOT);
    assert(s.subrange(i1 + 1, i2) =~= b);
    assert(s[i2] == DOT);
    assert(s.subrange(i2 + 1, i3) =~= c);
    assert(s[i3] == DASH);
    assert(s.subrange(i3 + 1, s.len() as int) =~= d);
    assert forall|j: int| 0 <= j < i1 implies s[j] != DOT by {
        assert(s[j] == a[j]);
        assert(is_digit(a[j]));
    }
    lemma_find_from_at(s, 0, i1, DOT);
    assert forall|j: int| i1 + 1 <= j < i2 implies s[j] != DOT by {
        assert(s[j] == b[j - (i1 + 1)]);
        assert(is_digit(b[j - (i1 + 1)]));
    }
    lemma_find_from_at(s, i1 + 1, i2, DOT);
    assert forall|j: int| i2 + 1 <= j < i3 implies s[j] != DASH by {
        assert(s[j] == c[j - (i2 + 1)]);
        assert(is_digit(c[j - (i2 + 1)]));
    }
    lemma_find_from_at(s, i2 + 1, i3, DASH);
    assert(is_u8_decimal(s.subrange(0, i1)));
    assert(is_u8_decimal(s.subrange(i1 + 1, i2)));
    assert(is_u8_decimal(s.subrange(i2 + 1, i3)));
    assert(is_u8_decimal(s.subrange(i3 + 1, s.len() as int)));
}

/// Renders a version for display.
pub fn version_text(v: &PythonVersion) -> (r: Vec<u8>)
    ensures
        r@ == spec_version_text(*v),
{
    let mut r: Vec<u8> = Vec::new();
    push_decimal(&mut r, v.major);
    r.push(DOT);
    push_decimal(&mut r, v.minor);
    r.push(DOT);
    push_decimal(&mut r, v.release);
    r.push(DASH);
    push_decimal(&mut r, v.build);
    proof {
        assert(r@ =~= spec_version_text(*v));
    }
    r
}

} // verus!
