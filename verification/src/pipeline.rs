//! The work-distribution pipeline's decisions and accounting.
//!
//! Stage A turns one package into work items, one per qualifying
//! executable, tagging the item derived from the final executable; a
//! package with no executables contributes its single progress unit right
//! there. Stage B turns one work item into findings and contributes the
//! package's progress unit exactly when the item carries the tag. The
//! sequential composition over a catalog snapshot fixes what any
//! interleaving of the concurrent workers must produce: one progress unit
//! per package, and a finding collection that depends only on the
//! snapshot, not on scheduling order.
use vstd::prelude::*;

use vstd::seq_lib::lemma_flatten_concat;
use vstd::seq_lib::lemma_multiset_commutative;

use crate::bytes::copy_bytes;
use crate::ldd::missing_dependencies;
use crate::ldd::spec_missing_deps;
use crate::seq_view;

verus! {

/// One executable awaiting its dependency probe.
pub struct WorkItem {
    /// The owning package's name.
    pub package: Vec<u8>,
    /// The executable's path.
    pub exec_path: Vec<u8>,
    /// Set on exactly the item derived from the package's final
    /// executable; the sole signal that accounts the package's progress.
    pub package_last: bool,
}

/// The abstract value of a work item.
#[verifier::ext_equal]
pub struct WorkItemModel {
    pub package: Seq<u8>,
    pub exec_path: Seq<u8>,
    pub package_last: bool,
}

impl View for WorkItem {
    type V = WorkItemModel;

    open spec fn view(&self) -> WorkItemModel {
        WorkItemModel {
            package: self.package@,
            exec_path: self.exec_path@,
            package_last: self.package_last,
        }
    }
}

/// One missing-dependency finding. Repeats are kept: the findings are not
/// deduplicated.
pub struct Finding {
    pub package: Vec<u8>,
    pub path: Vec<u8>,
    pub library: Vec<u8>,
}

/// The abstract value of a finding.
#[verifier::ext_equal]
pub struct FindingModel {
    pub package: Seq<u8>,
    pub path: Seq<u8>,
    pub library: Seq<u8>,
}

impl View for Finding {
    type V = FindingModel;

    open spec fn view(&self) -> FindingModel {
        FindingModel { package: self.package@, path: self.path@, library: self.library@ }
    }
}

/// One dependency-probe run: whether the probe exited successfully, and
/// its output lines.
pub struct ProbeResult {
    pub success: bool,
    pub lines: Vec<Vec<u8>>,
}

/// The abstract value of a probe run.
#[verifier::ext_equal]
pub struct ProbeModel {
    pub success: bool,
    pub lines: Seq<Seq<u8>>,
}

impl View for ProbeResult {
    type V = ProbeModel;

    open spec fn view(&self) -> ProbeModel {
        ProbeModel { success: self.success, lines: self.lines.deep_view() }
    }
}

/// One package of a catalog snapshot: its name, its qualifying executable
/// paths in manifest order, and the probe run of each.
pub struct PackageScan {
    pub name: Vec<u8>,
    pub files: Vec<Vec<u8>>,
    pub probes: Vec<ProbeResult>,
}

/// The abstract value of a package snapshot.
#[verifier::ext_equal]
pub struct PackageModel {
    pub name: Seq<u8>,
    pub files: Seq<Seq<u8>>,
    pub probes: Seq<ProbeModel>,
}

impl View for PackageScan {
    type V = PackageModel;

    open spec fn view(&self) -> PackageModel {
        PackageModel {
            name: self.name@,
            files: self.files.deep_view(),
            probes: seq_view(self.probes@),
        }
    }
}

/// A snapshot pairs one probe run with each executable.
pub open spec fn wf_package(p: PackageModel) -> bool {
    p.probes.len() == p.files.len()
}

/// The work items one package contributes: one per executable, in order,
/// the final one tagged.
pub open spec fn spec_work_items(package: Seq<u8>, files: Seq<Seq<u8>>) -> Seq<WorkItemModel> {
    Seq::new(
        files.len(),
        |i: int|
            WorkItemModel {
                package: package,
                exec_path: files[i],
                package_last: i == files.len() - 1,
            },
    )
}

/// The libraries a probe run reports missing; an unsuccessful probe
/// reports none.
pub open spec fn missing_libs(probe: ProbeModel) -> Seq<Seq<u8>> {
    if probe.success {
        spec_missing_deps(probe.lines)
    } else {
        Seq::empty()
    }
}

/// The findings one executable contributes: one per missing library, in
/// probe-output order.
pub open spec fn file_findings(package: Seq<u8>, path: Seq<u8>, probe: ProbeModel) -> Seq<
    FindingModel,
> {
    Seq::new(
        missing_libs(probe).len(),
        |i: int|
            FindingModel { package: package, path: path, library: missing_libs(probe)[i] },
    )
}

/// The findings one package contributes, file by file.
pub open spec fn package_findings(p: PackageModel) -> Seq<FindingModel> {
    Seq::new(p.files.len(), |i: int| file_findings(p.name, p.files[i], p.probes[i])).flatten()
}

/// The findings of a whole scan, package by package.
pub open spec fn scan_findings(ps: Seq<PackageModel>) -> Seq<FindingModel> {
    ps.map_values(|p: PackageModel| package_findings(p)).flatten()
}

/// Builds a package's work items. The items keep the executables' order;
/// exactly the final one is tagged as the package's last.
pub fn make_work_items(package: &Vec<u8>, files: &Vec<Vec<u8>>) -> (r: Vec<WorkItem>)
    ensures
        seq_view(r@) == spec_work_items(package@, files.deep_view()),
{
    let ghost full = spec_work_items(package@, files.deep_view());
    let mut r: Vec<WorkItem> = Vec::new();
    let mut i: usize = 0;
    while i < files.len()
        invariant
            0 <= i <= files@.len(),
            full == spec_work_items(package@, files.deep_view()),
            full.len() == files@.len(),
            r@.len() == i,
            seq_view(r@) == full.subrange(0, i as int),
        decreases files@.len() - i,
    {
        let ghost prev = seq_view(r@);
        let last = i == files.len() - 1;
        r.push(
            WorkItem {
                package: copy_bytes(package),
                exec_path: copy_bytes(&files[i]),
                package_last: last,
            },
        );
        proof {
            assert(files.deep_view()[i as int] == files@[i as int].deep_view());
            assert(files@[i as int].deep_view() =~= files@[i as int]@);
            assert(seq_view(r@) =~~= full.subrange(0, i + 1 as int));
        }
        i = i + 1;
    }
    proof {
        assert(full.subrange(0, full.len() as int) =~= full);
    }
    r
}

/// Law: a package with executables gets as many work items as
/// executables, and exactly the item derived from the final executable is
/// tagged as the package's last.
pub proof fn lemma_exactly_one_last(package: Seq<u8>, files: Seq<Seq<u8>>)
    requires
        files.len() > 0,
    ensures
        ({
            let items = spec_work_items(package, files);
            &&& items.len() == files.len()
            &&& forall|i: int|
                0 <= i < items.len() ==> ((#[trigger] items[i]).package_last <==> i == items.len()
                    - 1)
        }),
{
}

/// Stage A's step for one package: a package with no qualifying
/// executables produces no work items and its progress unit on the spot; a
/// package with some produces its work items and no progress yet.
pub fn stage_a_step(package: &Vec<u8>, files: &Vec<Vec<u8>>) -> (r: (Vec<WorkItem>, u64))
    ensures
        files@.len() == 0 ==> r.0@.len() == 0 && r.1 == 1,
        files@.len() > 0 ==> seq_view(r.0@) == spec_work_items(package@, files.deep_view())
            && r.1 == 0,
{
    if files.len() == 0 {
        (Vec::new(), 1)
    } else {
        (make_work_items(package, files), 0)
    }
}

/// Stage B's step for one work item: one finding per missing library the
/// probe reported, and the package's progress unit exactly when the item
/// is the package's last.
pub fn stage_b_step(item: &WorkItem, probe: &ProbeResult) -> (r: (Vec<Finding>, u64))
    ensures
        seq_view(r.0@) == file_findings(item.package@, item.exec_path@, probe@),
        r.1 == if item.package_last {
            1u64
        } else {
            0u64
        },
{
    let ghost ff = file_findings(item.package@, item.exec_path@, probe@);
    let libs = missing_dependencies(probe.success, &probe.lines);
    proof {
        assert(libs.deep_view() =~~= missing_libs(probe@));
    }
    let mut findings: Vec<Finding> = Vec::new();
    let mut j: usize = 0;
    while j < libs.len()
        invariant
            0 <= j <= libs@.len(),
            libs.deep_view() == missing_libs(probe@),
            ff == file_findings(item.package@, item.exec_path@, probe@),
            ff.len() == libs@.len(),
            findings@.len() == j,
            seq_view(findings@) == ff.subrange(0, j as int),
        decreases libs@.len() - j,
    {
        findings.push(
            Finding {
                package: copy_bytes(&item.package),
                path: copy_bytes(&item.exec_path),
                library: copy_bytes(&libs[j]),
            },
        );
        proof {
            assert(libs.deep_view()[j as int] == libs@[j as int].deep_view());
            assert(libs@[j as int].deep_view() =~= libs@[j as int]@);
            assert(seq_view(findings@) =~~= ff.subrange(0, j + 1 as int));
        }
        j = j + 1;
    }
    proof {
        assert(ff.subrange(0, ff.len() as int) =~= ff);
    }
    let progress: u64 = if item.package_last {
        1
    } else {
        0
    };
    (findings, progress)
}

/// Flattening a one-element sequence of sequences yields that element.
proof fn lemma_flatten_single(x: Seq<FindingModel>)
    ensures
        seq![x].flatten() == x,
{
    assert(seq![x].drop_first() =~= Seq::<Seq<FindingModel>>::empty());
    assert(Seq::<Seq<FindingModel>>::empty().flatten() =~= Seq::<FindingModel>::empty());
    assert(seq![x].flatten() =~= x);
}

/// Scans one package snapshot: stage A, then stage B over each work item.
/// Whatever the executable count — zero, one, or many — the package
/// advances progress by exactly one.
pub fn scan_package(p: &PackageScan) -> (r: (Vec<Finding>, u64))
    requires
        wf_package(p@),
    ensures
        seq_view(r.0@) == package_findings(p@),
        r.1 == 1,
{
    let ghost full = Seq::new(
        p@.files.len(),
        |i: int| file_findings(p@.name, p@.files[i], p@.probes[i]),
    );
    let staged = stage_a_step(&p.name, &p.files);
    let items = staged.0;
    let mut progress = staged.1;
    let mut findings: Vec<Finding> = Vec::new();
    if p.files.len() == 0 {
        proof {
            assert(package_findings(p@) =~= Seq::<FindingModel>::empty());
            assert(seq_view(findings@) =~= Seq::<FindingModel>::empty());
        }
        return (findings, progress);
    }
    proof {
        assert(p@.files.len() == p.files@.len());
        assert(p@.probes.len() == p.probes@.len());
        assert(seq_view(items@).len() == items@.len());
        assert(spec_work_items(p@.name, p@.files).len() == p@.files.len());
    }
    let mut i: usize = 0;
    while i < items.len()
        invariant
            0 <= i <= items@.len(),
            items@.len() == p.files@.len() == p.probes@.len(),
            p@.files.len() == p.files@.len(),
            p@.probes.len() == p.probes@.len(),
            seq_view(items@) == spec_work_items(p@.name, p@.files),
            full == Seq::new(
                p@.files.len(),
                |k: int| file_findings(p@.name, p@.files[k], p@.probes[k]),
            ),
            seq_view(findings@) == full.subrange(0, i as int).flatten(),
            progress == if i == items@.len() {
                1int
            } else {
                0int
            },
        decreases items@.len() - i,
    {
        let ghost prev = seq_view(findings@);
        let step = stage_b_step(&items[i], &p.probes[i]);
        let mut step_findings = step.0;
        proof {
            assert(items@[i as int]@ == spec_work_items(p@.name, p@.files)[i as int]);
            assert(p.probes@[i as int]@ == p@.probes[i as int]);
            assert(seq_view(step.0@) == full[i as int]);
        }
        findings.append(&mut step_findings);
        progress = progress + step.1;
        proof {
            assert(seq_view(findings@) =~= prev + full[i as int]);
            assert(full.subrange(0, i + 1 as int) =~= full.subrange(0, i as int) + seq![
                full[i as int],
            ]);
            lemma_flatten_concat(full.subrange(0, i as int), seq![full[i as int]]);
            lemma_flatten_single(full[i as int]);
        }
        i = i + 1;
    }
    proof {
        assert(full.subrange(0, full.len() as int) =~= full);
    }
    (findings, progress)
}

/// Scans a whole catalog snapshot in order. The progress total equals the
/// package count exactly: each package contributes one unit, however many
/// executables it owns.
pub fn run_scan(packages: &Vec<PackageScan>) -> (r: (Vec<Finding>, u64))
    requires
        forall|i: int| 0 <= i < packages@.len() ==> wf_package((#[trigger] packages@[i])@),
        packages@.len() <= u64::MAX,
    ensures
        seq_view(r.0@) == scan_findings(seq_view(packages@)),
        r.1 == packages@.len(),
{
    let ghost pv = seq_view(packages@);
    let ghost mapped = pv.map_values(|p: PackageModel| package_findings(p));
    let mut findings: Vec<Finding> = Vec::new();
    let mut progress: u64 = 0;
    let mut i: usize = 0;
    while i < packages.len()
        invariant
            0 <= i <= packages@.len(),
            packages@.len() <= u64::MAX,
            pv == seq_view(packages@),
            mapped == pv.map_values(|p: PackageModel| package_findings(p)),
            mapped.len() == packages@.len(),
            forall|k: int| 0 <= k < packages@.len() ==> wf_package((#[trigger] packages@[k])@),
            seq_view(findings@) == mapped.subrange(0, i as int).flatten(),
            progress == i,
        decreases packages@.len() - i,
    {
        let ghost prev = seq_view(findings@);
        let step = scan_package(&packages[i]);
        let mut step_findings = step.0;
        proof {
            assert(pv[i as int] == packages@[i as int]@);
            assert(mapped[i as int] == package_findings(pv[i as int]));
        }
        findings.append(&mut step_findings);
        progress = progress + step.1;
        proof {
            assert(seq_view(findings@) =~= prev + mapped[i as int]);
            assert(mapped.subrange(0, i + 1 as int) =~= mapped.subrange(0, i as int) + seq![
                mapped[i as int],
            ]);
            lemma_flatten_concat(mapped.subrange(0, i as int), seq![mapped[i as int]]);
            lemma_flatten_single(mapped[i as int]);
        }
        i = i + 1;
    }
    proof {
        assert(mapped.subrange(0, mapped.len() as int) =~= mapped);
    }
    (findings, progress)
}

/// Stage A's pool size: one worker per package, capped by the core count.
pub fn stage_a_pool_size(cpu_count: usize, package_count: usize) -> (r: usize)
    ensures
        r == if package_count <= cpu_count {
            package_count
        } else {
            cpu_count
        },
{
    if package_count <= cpu_count {
        package_count
    } else {
        cpu_count
    }
}

/// Removing one package from a scan removes exactly its findings, as
/// unordered collections.
proof fn lemma_scan_findings_remove(s: Seq<PackageModel>, j: int)
    requires
        0 <= j < s.len(),
    ensures
        scan_findings(s).to_multiset() == scan_findings(s.remove(j)).to_multiset().add(
            package_findings(s[j]).to_multiset(),
        ),
{
    broadcast use vstd::multiset::group_multiset_axioms;

    let f = |p: PackageModel| package_findings(p);
    let a = s.subrange(0, j);
    let b = s.subrange(j + 1, s.len() as int);
    let x = package_findings(s[j]);
    assert(s.map_values(f) =~= a.map_values(f) + seq![x] + b.map_values(f));
    assert(s.remove(j).map_values(f) =~= a.map_values(f) + b.map_values(f));
    lemma_flatten_concat(a.map_values(f) + seq![x], b.map_values(f));
    lemma_flatten_concat(a.map_values(f), seq![x]);
    lemma_flatten_concat(a.map_values(f), b.map_values(f));
    lemma_flatten_single(x);
    let fa = a.map_values(f).flatten();
    let fb = b.map_values(f).flatten();
    assert(scan_findings(s) =~= fa + x + fb);
    assert(scan_findings(s.remove(j)) =~= fa + fb);
    lemma_multiset_commutative(fa + x, fb);
    lemma_multiset_commutative(fa, x);
    lemma_multiset_commutative(fa, fb);
    assert(scan_findings(s).to_multiset() =~= scan_findings(s.remove(j)).to_multiset().add(
        x.to_multiset(),
    ));
}

/// Law: the findings of a scan do not depend on the order in which the
/// packages are taken up. Two scans over the same unordered collection of
/// package snapshots — in particular, two scans of an unchanged system —
/// yield the same findings as unordered collections.
pub proof fn lemma_scan_order_irrelevant(c1: Seq<PackageModel>, c2: Seq<PackageModel>)
    requires
        c1.to_multiset() == c2.to_multiset(),
    ensures
        scan_findings(c1).to_multiset() == scan_findings(c2).to_multiset(),
    decreases c1.len(),
{
    broadcast use vstd::seq_lib::group_to_multiset_ensures;
    broadcast use vstd::multiset::group_multiset_axioms;

    c1.to_multiset_ensures();
    c2.to_multiset_ensures();
    if c1.len() == 0 {
        assert(c2.len() == 0);
        assert(scan_findings(c1) =~= scan_findings(c2));
    } else {
        let x = c1[0];
        assert(c1.contains(x));
        assert(c2.to_multiset().count(x) > 0);
        assert(c2.contains(x));
        let j = choose|j: int| 0 <= j < c2.len() && c2[j] == x;
        assert(c1.remove(0).to_multiset() == c1.to_multiset().remove(x));
        assert(c2.remove(j).to_multiset() == c2.to_multiset().remove(x));
        lemma_scan_order_irrelevant(c1.remove(0), c2.remove(j));
        lemma_scan_findings_remove(c1, 0);
        lemma_scan_findings_remove(c2, j);
    }
}

} // verus!
