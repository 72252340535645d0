//! The interpreter-mismatch detector. An interpreter loads modules only
//! from the library root named for its own major.minor version; a sibling
//! root left over from another version is unreachable, and the packages
//! that own files there are broken. The front end globs the candidate
//! directories and asks the catalog who owns each; this module decides
//! which directories are stray and keeps one finding per distinct
//! (package, directory) pair.
use vstd::prelude::*;

use crate::bytes::DOT;
use crate::bytes::bytes_eq;
use crate::bytes::copy_bytes;
use crate::bytes::dec_repr;
use crate::bytes::push_decimal;
use crate::seq_view;
use crate::version::PythonVersion;

verus! {

/// The bytes of `/usr/lib/python`, the stem of every interpreter
/// library-root path.
pub open spec fn lib_root_stem() -> Seq<u8> {
    seq![
        47u8,
        117u8,
        115u8,
        114u8,
        47u8,
        108u8,
        105u8,
        98u8,
        47u8,
        112u8,
        121u8,
        116u8,
        104u8,
        111u8,
        110u8,
    ]
}

/// The library root the active interpreter reads: stem, major, dot, minor.
pub open spec fn spec_active_lib_root(v: PythonVersion) -> Seq<u8> {
    lib_root_stem() + dec_repr(v.major as nat) + seq![DOT] + dec_repr(v.minor as nat)
}

/// The glob pattern that matches every library root of the active major
/// version: stem, major, `*`.
pub open spec fn spec_lib_root_pattern(v: PythonVersion) -> Seq<u8> {
    lib_root_stem() + dec_repr(v.major as nat) + seq![42u8]
}

fn lib_root_stem_bytes() -> (r: Vec<u8>)
    ensures
        r@ == lib_root_stem(),
{
    let mut r: Vec<u8> = Vec::new();
    r.push(47);
    r.push(117);
    r.push(115);
    r.push(114);
    r.push(47);
    r.push(108);
    r.push(105);
    r.push(98);
    r.push(47);
    r.push(112);
    r.push(121);
    r.push(116);
    r.push(104);
    r.push(111);
    r.push(110);
    proof {
        assert(r@ =~= lib_root_stem());
    }
    r
}

/// The path of the active interpreter's library root.
pub fn active_lib_root(v: &PythonVersion) -> (r: Vec<u8>)
    ensures
        r@ == spec_active_lib_root(*v),
{
    let mut r = lib_root_stem_bytes();
    push_decimal(&mut r, v.major);
    r.push(DOT);
    push_decimal(&mut r, v.minor);
    proof {
        assert(r@ =~= spec_active_lib_root(*v));
    }
    r
}

/// The glob pattern for every sibling library root of the active major
/// version.
pub fn lib_root_pattern(v: &PythonVersion) -> (r: Vec<u8>)
    ensures
        r@ == spec_lib_root_pattern(*v),
{
    let mut r = lib_root_stem_bytes();
    push_decimal(&mut r, v.major);
    r.push(42);
    proof {
        assert(r@ =~= spec_lib_root_pattern(*v));
    }
    r
}

/// A directory the active interpreter ignores.
pub fn is_stray_dir(dir: &Vec<u8>, active_root: &Vec<u8>) -> (r: bool)
    ensures
        r == (dir@ != active_root@),
{
    !bytes_eq(dir, active_root)
}

/// One candidate directory with the set of packages that own files in it.
pub struct DirOwners {
    pub directory: Vec<u8>,
    pub owners: Vec<Vec<u8>>,
}

/// The abstract value of a candidate directory.
pub struct DirOwnersModel {
    pub directory: Seq<u8>,
    pub owners: Seq<Seq<u8>>,
}

impl View for DirOwners {
    type V = DirOwnersModel;

    open spec fn view(&self) -> DirOwnersModel {
        DirOwnersModel { directory: self.directory@, owners: self.owners.deep_view() }
    }
}

/// A package with files in a directory the active interpreter ignores.
pub struct StrayFinding {
    pub package: Vec<u8>,
    pub directory: Vec<u8>,
}

/// The abstract value of a stray finding.
#[verifier::ext_equal]
pub struct StrayModel {
    pub package: Seq<u8>,
    pub directory: Seq<u8>,
}

impl View for StrayFinding {
    type V = StrayModel;

    open spec fn view(&self) -> StrayModel {
        StrayModel { package: self.package@, directory: self.directory@ }
    }
}

/// The (package, directory) pair already stands among the findings.
pub open spec fn stray_recorded(s: Seq<StrayModel>, pkg: Seq<u8>, dir: Seq<u8>) -> bool {
    exists|i: int|
        0 <= i < s.len() && (#[trigger] s[i]).package == pkg && s[i].directory == dir
}

/// Adds one (package, directory) pair unless it is already recorded.
pub open spec fn record_owner(acc: Seq<StrayModel>, pkg: Seq<u8>, dir: Seq<u8>) -> Seq<
    StrayModel,
> {
    if stray_recorded(acc, pkg, dir) {
        acc
    } else {
        acc.push(StrayModel { package: pkg, directory: dir })
    }
}

/// Records one stray directory's owners in order, deduplicating pairs.
pub open spec fn record_dir(acc: Seq<StrayModel>, owners: Seq<Seq<u8>>, dir: Seq<u8>) -> Seq<
    StrayModel,
>
    decreases owners.len(),
{
    if owners.len() == 0 {
        acc
    } else {
        record_owner(record_dir(acc, owners.drop_last(), dir), owners.last(), dir)
    }
}

/// The findings of the whole detector pass: candidate directories in order,
/// the active root excluded, owners deduplicated by pair.
pub open spec fn spec_detect(entries: Seq<DirOwnersModel>, active_root: Seq<u8>) -> Seq<
    StrayModel,
>
    decreases entries.len(),
{
    if entries.len() == 0 {
        Seq::empty()
    } else {
        let prev = spec_detect(entries.drop_last(), active_root);
        if entries.last().directory == active_root {
            prev
        } else {
            record_dir(prev, entries.last().owners, entries.last().directory)
        }
    }
}

/// No two findings carry the same (package, directory) pair.
pub open spec fn no_duplicate_pairs(s: Seq<StrayModel>) -> bool {
    forall|i: int, j: int|
        #![trigger s[i], s[j]]
        0 <= i < j < s.len() ==> !(s[i].package == s[j].package && s[i].directory
            == s[j].directory)
}

proof fn lemma_record_owner_recorded(
    acc: Seq<StrayModel>,
    pkg: Seq<u8>,
    dir: Seq<u8>,
    p: Seq<u8>,
    d: Seq<u8>,
)
    ensures
        stray_recorded(record_owner(acc, pkg, dir), p, d) <==> (stray_recorded(acc, p, d) || (p
            == pkg && d == dir)),
{
    if !stray_recorded(acc, pkg, dir) {
        let pushed = acc.push(StrayModel { package: pkg, directory: dir });
        if stray_recorded(pushed, p, d) {
            let i = choose|i: int|
                0 <= i < pushed.len() && (#[trigger] pushed[i]).package == p
                    && pushed[i].directory == d;
            if i < acc.len() {
                assert(acc[i] == pushed[i]);
                assert(stray_recorded(acc, p, d));
            }
        }
        if stray_recorded(acc, p, d) {
            let i = choose|i: int|
                0 <= i < acc.len() && (#[trigger] acc[i]).package == p && acc[i].directory == d;
            assert(pushed[i].package == p && pushed[i].directory == d);
            assert(stray_recorded(pushed, p, d));
        }
        if p == pkg && d == dir {
            assert(pushed[acc.len() as int].package == p && pushed[acc.len() as int].directory
                == d);
            assert(stray_recorded(pushed, p, d));
        }
    }
}

proof fn lemma_record_dir_recorded(
    acc: Seq<StrayModel>,
    owners: Seq<Seq<u8>>,
    dir: Seq<u8>,
    p: Seq<u8>,
    d: Seq<u8>,
)
    ensures
        stray_recorded(record_dir(acc, owners, dir), p, d) <==> (stray_recorded(acc, p, d) || (
        owners.contains(p) && d == dir)),
    decreases owners.len(),
{
    if owners.len() == 0 {
        assert(!owners.contains(p));
    } else {
        lemma_record_dir_recorded(acc, owners.drop_last(), dir, p, d);
        lemma_record_owner_recorded(
            record_dir(acc, owners.drop_last(), dir),
            owners.last(),
            dir,
            p,
            d,
        );
        assert(owners.contains(p) <==> (owners.drop_last().contains(p) || owners.last() == p))
            by {
            if owners.contains(p) {
                let i = choose|i: int| 0 <= i < owners.len() && owners[i] == p;
                if i < owners.len() - 1 {
                    assert(owners.drop_last()[i] == p);
                    assert(owners.drop_last().contains(p));
                }
            }
            if owners.drop_last().contains(p) {
                let i = choose|i: int|
                    0 <= i < owners.drop_last().len() && owners.drop_last()[i] == p;
                assert(owners[i] == p);
                assert(owners.contains(p));
            }
            if owners.last() == p {
                assert(owners[owners.len() - 1] == p);
                assert(owners.contains(p));
            }
        }
    }
}

proof fn lemma_record_owner_no_dup(acc: Seq<StrayModel>, pkg: Seq<u8>, dir: Seq<u8>)
    requires
        no_duplicate_pairs(acc),
    ensures
        no_duplicate_pairs(record_owner(acc, pkg, dir)),
{
    if !stray_recorded(acc, pkg, dir) {
        let r = acc.push(StrayModel { package: pkg, directory: dir });
        assert forall|i: int, j: int|
            #![trigger r[i], r[j]]
            0 <= i < j < r.len() implies !(r[i].package == r[j].package && r[i].directory
            == r[j].directory) by {
            if j == acc.len() {
                assert(r[i] == acc[i]);
                if r[i].package == pkg && r[i].directory == dir {
                    assert(stray_recorded(acc, pkg, dir));
                }
            } else {
                assert(r[i] == acc[i] && r[j] == acc[j]);
            }
        }
    }
}

proof fn lemma_record_dir_no_dup(acc: Seq<StrayModel>, owners: Seq<Seq<u8>>, dir: Seq<u8>)
    requires
        no_duplicate_pairs(acc),
    ensures
        no_duplicate_pairs(record_dir(acc, owners, dir)),
    decreases owners.len(),
{
    if owners.len() > 0 {
        lemma_record_dir_no_dup(acc, owners.drop_last(), dir);
        lemma_record_owner_no_dup(record_dir(acc, owners.drop_last(), dir), owners.last(), dir);
    }
}

/// Law: the detector never reports a (package, directory) pair twice,
/// however many files the package owns there and however often a
/// directory recurs among the candidates.
pub proof fn lemma_detect_no_duplicates(entries: Seq<DirOwnersModel>, active_root: Seq<u8>)
    ensures
        no_duplicate_pairs(spec_detect(entries, active_root)),
    decreases entries.len(),
{
    if entries.len() > 0 {
        lemma_detect_no_duplicates(entries.drop_last(), active_root);
        if entries.last().directory != active_root {
            lemma_record_dir_no_dup(
                spec_detect(entries.drop_last(), active_root),
                entries.last().owners,
                entries.last().directory,
            );
        }
    }
}

/// Law: the detector reports exactly the (package, directory) pairs in
/// which a candidate directory other than the active root has that package
/// among its owners; the active root itself is never reported.
pub proof fn lemma_detect_characterization(
    entries: Seq<DirOwnersModel>,
    active_root: Seq<u8>,
    p: Seq<u8>,
    d: Seq<u8>,
)
    ensures
        stray_recorded(spec_detect(entries, active_root), p, d) <==> (d != active_root && exists|
            k: int,
        |
            0 <= k < entries.len() && (#[trigger] entries[k]).directory == d
                && entries[k].owners.contains(p)),
    decreases entries.len(),
{
    if entries.len() > 0 {
        lemma_detect_characterization(entries.drop_last(), active_root, p, d);
        let prev = spec_detect(entries.drop_last(), active_root);
        let e = entries.last();
        if e.directory != active_root {
            lemma_record_dir_recorded(prev, e.owners, e.directory, p, d);
        }
        assert((exists|k: int|
            0 <= k < entries.drop_last().len() && (#[trigger] entries.drop_last()[k]).directory
                == d && entries.drop_last()[k].owners.contains(p)) || (e.directory == d
            && e.owners.contains(p)) <==> (exists|k: int|
            0 <= k < entries.len() && (#[trigger] entries[k]).directory == d
                && entries[k].owners.contains(p))) by {
            if exists|k: int|
                0 <= k < entries.drop_last().len() && (#[trigger] entries.drop_last()[k]).directory
                    == d && entries.drop_last()[k].owners.contains(p) {
                let k = choose|k: int|
                    0 <= k < entries.drop_last().len() && (#[trigger] entries.drop_last()[k]).directory
                        == d && entries.drop_last()[k].owners.contains(p);
                assert(entries[k].directory == d && entries[k].owners.contains(p));
            }
            if e.directory == d && e.owners.contains(p) {
                assert(entries[entries.len() - 1].directory == d && entries[entries.len()
                    - 1].owners.contains(p));
            }
            if exists|k: int|
                0 <= k < entries.len() && (#[trigger] entries[k]).directory == d
                    && entries[k].owners.contains(p) {
                let k = choose|k: int|
                    0 <= k < entries.len() && (#[trigger] entries[k]).directory == d
                        && entries[k].owners.contains(p);
                if k < entries.len() - 1 {
                    assert(entries.drop_last()[k].directory == d
                        && entries.drop_last()[k].owners.contains(p));
                }
            }
        }
    }
}

/// Whether the pair is already among the findings.
pub fn pair_recorded(findings: &Vec<StrayFinding>, pkg: &Vec<u8>, dir: &Vec<u8>) -> (r: bool)
    ensures
        r == stray_recorded(seq_view(findings@), pkg@, dir@),
{
    let ghost fv = seq_view(findings@);
    let mut i: usize = 0;
    while i < findings.len()
        invariant
            0 <= i <= findings@.len(),
            fv == seq_view(findings@),
            forall|j: int|
                0 <= j < i ==> !((#[trigger] fv[j]).package == pkg@ && fv[j].directory == dir@),
        decreases findings@.len() - i,
    {
        let f = &findings[i];
        if bytes_eq(&f.package, pkg) && bytes_eq(&f.directory, dir) {
            proof {
                assert(fv[i as int].package == pkg@ && fv[i as int].directory == dir@);
            }
            return true;
        }
        i = i + 1;
    }
    false
}

/// Records every owner of one stray directory, skipping pairs already seen.
pub fn record_dir_owners(findings: &mut Vec<StrayFinding>, owners: &Vec<Vec<u8>>, dir: &Vec<u8>)
    ensures
        seq_view(final(findings)@) == record_dir(seq_view(old(findings)@), owners.deep_view(), dir@),
{
    let ghost ov = owners.deep_view();
    let mut i: usize = 0;
    while i < owners.len()
        invariant
            0 <= i <= owners@.len(),
            ov == owners.deep_view(),
            seq_view(findings@) == record_dir(seq_view(old(findings)@), ov.subrange(0, i as int), dir@),
        decreases owners@.len() - i,
    {
        let ghost prev = seq_view(findings@);
        proof {
            assert(ov.subrange(0, i + 1 as int).drop_last() =~= ov.subrange(0, i as int));
            assert(ov.subrange(0, i + 1 as int).last() == ov[i as int]);
            assert(owners@[i as int]@ == ov[i as int]);
        }
        let owner = &owners[i];
        if !pair_recorded(findings, owner, dir) {
            findings.push(StrayFinding { package: copy_bytes(owner), directory: copy_bytes(dir) });
            proof {
                assert(seq_view(findings@) =~= prev.push(
                    StrayModel { package: ov[i as int], directory: dir@ },
                ));
            }
        }
        i = i + 1;
    }
    proof {
        assert(ov.subrange(0, ov.len() as int) =~= ov);
    }
}

/// Runs the detector over the candidate directories: every directory other
/// than the active root contributes its owners, one finding per distinct
/// (package, directory) pair, in first-seen order.
pub fn detect_strays(entries: &Vec<DirOwners>, active_root: &Vec<u8>) -> (r: Vec<StrayFinding>)
    ensures
        seq_view(r@) == spec_detect(seq_view(entries@), active_root@),
{
    let ghost ev = seq_view(entries@);
    let mut findings: Vec<StrayFinding> = Vec::new();
    let mut i: usize = 0;
    while i < entries.len()
        invariant
            0 <= i <= entries@.len(),
            ev == seq_view(entries@),
            seq_view(findings@) == spec_detect(ev.subrange(0, i as int), active_root@),
        decreases entries@.len() - i,
    {
        proof {
            assert(ev.subrange(0, i + 1 as int).drop_last() =~= ev.subrange(0, i as int));
            assert(ev.subrange(0, i + 1 as int).last() == ev[i as int]);
        }
        let e = &entries[i];
        if is_stray_dir(&e.directory, active_root) {
            record_dir_owners(&mut findings, &e.owners, &e.directory);
        }
        i = i + 1;
    }
    proof {
        assert(ev.subrange(0, ev.len() as int) =~= ev);
    }
    findings
}

} // verus!
