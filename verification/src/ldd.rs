//! Classifies the dependency probe's output: a line whose trailing text is
//! the literal marker `=> not found` names a shared library the resolver
//! could not find; every other line reports a resolved dependency and is
//! ignored. The library name is the line's first space-delimited token,
//! stripped of leading whitespace.
use vstd::prelude::*;

use crate::bytes::SPACE;
use crate::bytes::find_byte;
use crate::bytes::find_from;
use crate::bytes::is_suffix;
use crate::bytes::lemma_find_from;
use crate::bytes::spec_trim_start;
use crate::bytes::subvec;
use crate::bytes::trim_start;
use crate::bytes::ends_with;

verus! {

/// The bytes of the marker `=> not found`.
pub open spec fn not_found_marker() -> Seq<u8> {
    seq![61u8, 62u8, 32u8, 110u8, 111u8, 116u8, 32u8, 102u8, 111u8, 117u8, 110u8, 100u8]
}

/// A probe line that reports a missing library.
pub open spec fn is_missing_line(l: Seq<u8>) -> bool {
    is_suffix(not_found_marker(), l)
}

/// The library name carried by a missing-library line: the first
/// space-delimited token, with leading whitespace removed.
pub open spec fn missing_lib_name(l: Seq<u8>) -> Seq<u8> {
    spec_trim_start(l.subrange(0, find_from(l, 0, SPACE)))
}

/// The missing-library names of a successful probe run, in line order.
pub open spec fn spec_missing_deps(lines: Seq<Seq<u8>>) -> Seq<Seq<u8>>
    decreases lines.len(),
{
    if lines.len() == 0 {
        Seq::empty()
    } else {
        let rest = spec_missing_deps(lines.drop_last());
        if is_missing_line(lines.last()) {
            rest.push(missing_lib_name(lines.last()))
        } else {
            rest
        }
    }
}

fn not_found_suffix() -> (r: Vec<u8>)
    ensures
        r@ == not_found_marker(),
{
    let mut r: Vec<u8> = Vec::new();
    r.push(61);
    r.push(62);
    r.push(32);
    r.push(110);
    r.push(111);
    r.push(116);
    r.push(32);
    r.push(102);
    r.push(111);
    r.push(117);
    r.push(110);
    r.push(100);
    proof {
        assert(r@ =~= not_found_marker());
    }
    r
}

/// Extracts the missing-library names from one probe run over an executable.
/// A probe that exited unsuccessfully has nothing to report: the run yields
/// no findings rather than an error.
pub fn missing_dependencies(probe_success: bool, lines: &Vec<Vec<u8>>) -> (r: Vec<Vec<u8>>)
    ensures
        probe_success ==> r.deep_view() == spec_missing_deps(lines.deep_view()),
        !probe_success ==> r@.len() == 0,
{
    let mut r: Vec<Vec<u8>> = Vec::new();
    if !probe_success {
        return r;
    }
    let marker = not_found_suffix();
    let mut i: usize = 0;
    while i < lines.len()
        invariant
            0 <= i <= lines@.len(),
            marker@ == not_found_marker(),
            r.deep_view() == spec_missing_deps(lines.deep_view().subrange(0, i as int)),
        decreases lines@.len() - i,
    {
        let ghost prev = r.deep_view();
        let ghost lv = lines.deep_view();
        let line = &lines[i];
        proof {
            assert(lv[i as int] == line@);
            assert(lv.subrange(0, i + 1 as int).drop_last() =~= lv.subrange(0, i as int));
            assert(lv.subrange(0, i + 1 as int).last() == lv[i as int]);
        }
        if ends_with(line, &marker) {
            proof {
                lemma_find_from(line@, 0, SPACE);
            }
            let tok_end = find_byte(line, 0, SPACE);
            let token = subvec(line, 0, tok_end);
            let name = trim_start(&token);
            proof {
                assert(name@ == missing_lib_name(lv[i as int]));
            }
            r.push(name);
            proof {
                assert(r.deep_view() =~~= prev.push(name@));
            }
        }
        i = i + 1;
    }
    proof {
        assert(lines.deep_view().subrange(0, lines@.len() as int) =~= lines.deep_view());
    }
    r
}

} // verus!
