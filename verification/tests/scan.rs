use check_broken_packages::manifest::executable_paths;
use check_broken_packages::manifest::FileEntry;
use check_broken_packages::pipeline::make_work_items;
use check_broken_packages::pipeline::run_scan;
use check_broken_packages::pipeline::stage_a_pool_size;
use check_broken_packages::pipeline::stage_a_step;
use check_broken_packages::pipeline::stage_b_step;
use check_broken_packages::pipeline::Finding;
use check_broken_packages::pipeline::PackageScan;
use check_broken_packages::pipeline::ProbeResult;

fn b(s: &str) -> Vec<u8> {
    s.as_bytes().to_vec()
}

fn lines(ls: &[&str]) -> Vec<Vec<u8>> {
    ls.iter().map(|l| b(l)).collect()
}

fn triples(findings: &[Finding]) -> Vec<(Vec<u8>, Vec<u8>, Vec<u8>)> {
    findings
        .iter()
        .map(|f| (f.package.clone(), f.path.clone(), f.library.clone()))
        .collect()
}

#[test]
fn directories_and_plain_files_yield_no_work() {
    let entries = vec![
        FileEntry { path: b("/usr/share/doc"), exists: true, is_file: false, mode: 0o755 },
        FileEntry { path: b("/usr/share/notes.txt"), exists: true, is_file: true, mode: 0o644 },
        FileEntry { path: b("/usr/bin/gone"), exists: false, is_file: false, mode: 0 },
    ];
    assert_eq!(executable_paths(&entries), Vec::<Vec<u8>>::new());
}

#[test]
fn executables_keep_manifest_order() {
    let entries = vec![
        FileEntry { path: b("/usr/bin/a"), exists: true, is_file: true, mode: 0o755 },
        FileEntry { path: b("/usr/share/a.txt"), exists: true, is_file: true, mode: 0o644 },
        FileEntry { path: b("/usr/bin/b"), exists: true, is_file: true, mode: 0o100 },
        FileEntry { path: b("/usr/bin/c"), exists: true, is_file: true, mode: 0o001 },
    ];
    assert_eq!(
        executable_paths(&entries),
        lines(&["/usr/bin/a", "/usr/bin/b", "/usr/bin/c"])
    );
}

#[test]
fn package_without_executables_advances_progress_once() {
    let (items, progress) = stage_a_step(&b("emptypkg"), &Vec::new());
    assert!(items.is_empty());
    assert_eq!(progress, 1);
}

#[test]
fn exactly_one_work_item_is_marked_last() {
    let files = lines(&["/usr/bin/a", "/usr/bin/b", "/usr/bin/c"]);
    let items = make_work_items(&b("pkg"), &files);
    assert_eq!(items.len(), 3);
    for (i, item) in items.iter().enumerate() {
        assert_eq!(item.package, b("pkg"));
        assert_eq!(item.exec_path, files[i]);
        assert_eq!(item.package_last, i == 2);
    }
    assert_eq!(items.iter().filter(|w| w.package_last).count(), 1);
}

#[test]
fn package_with_executables_defers_progress_to_stage_b() {
    let files = lines(&["/usr/bin/a"]);
    let (items, progress) = stage_a_step(&b("pkg"), &files);
    assert_eq!(items.len(), 1);
    assert_eq!(progress, 0);
}

#[test]
fn stage_b_counts_only_the_last_item() {
    let files = lines(&["/usr/bin/a", "/usr/bin/b"]);
    let items = make_work_items(&b("pkg"), &files);
    let probe = ProbeResult { success: true, lines: lines(&["libx.so => not found"]) };
    let (findings_a, progress_a) = stage_b_step(&items[0], &probe);
    assert_eq!(triples(&findings_a), vec![(b("pkg"), b("/usr/bin/a"), b("libx.so"))]);
    assert_eq!(progress_a, 0);
    let (findings_b, progress_b) = stage_b_step(&items[1], &probe);
    assert_eq!(triples(&findings_b), vec![(b("pkg"), b("/usr/bin/b"), b("libx.so"))]);
    assert_eq!(progress_b, 1);
}

#[test]
fn end_to_end_single_missing_dependency() {
    let packages = vec![PackageScan {
        name: b("foo"),
        files: lines(&["/usr/bin/foo"]),
        probes: vec![ProbeResult { success: true, lines: lines(&["libbar.so => not found"]) }],
    }];
    let (findings, progress) = run_scan(&packages);
    assert_eq!(triples(&findings), vec![(b("foo"), b("/usr/bin/foo"), b("libbar.so"))]);
    assert_eq!(progress, 1);
}

#[test]
fn progress_equals_package_count() {
    let packages = vec![
        PackageScan { name: b("none"), files: Vec::new(), probes: Vec::new() },
        PackageScan {
            name: b("one"),
            files: lines(&["/usr/bin/one"]),
            probes: vec![ProbeResult { success: false, lines: Vec::new() }],
        },
        PackageScan {
            name: b("two"),
            files: lines(&["/usr/bin/two", "/usr/bin/twin"]),
            probes: vec![
                ProbeResult { success: true, lines: lines(&["liba.so => not found"]) },
                ProbeResult { success: true, lines: lines(&["libb.so => /usr/lib/libb.so (0x1)"]) },
            ],
        },
    ];
    let (findings, progress) = run_scan(&packages);
    assert_eq!(progress, 3);
    assert_eq!(triples(&findings), vec![(b("two"), b("/usr/bin/two"), b("liba.so"))]);
}

#[test]
fn scan_order_does_not_change_the_finding_set() {
    let pkg_a = PackageScan {
        name: b("a"),
        files: lines(&["/usr/bin/a"]),
        probes: vec![ProbeResult { success: true, lines: lines(&["liba.so => not found"]) }],
    };
    let pkg_b = PackageScan {
        name: b("b"),
        files: lines(&["/usr/bin/b"]),
        probes: vec![ProbeResult {
            success: true,
            lines: lines(&["libb.so => not found", "libc.so => not found"]),
        }],
    };
    let clone_of = |p: &PackageScan| PackageScan {
        name: p.name.clone(),
        files: p.files.clone(),
        probes: p
            .probes
            .iter()
            .map(|q| ProbeResult { success: q.success, lines: q.lines.clone() })
            .collect(),
    };
    let (f1, p1) = run_scan(&vec![clone_of(&pkg_a), clone_of(&pkg_b)]);
    let (f2, p2) = run_scan(&vec![clone_of(&pkg_b), clone_of(&pkg_a)]);
    assert_eq!(p1, p2);
    let mut s1 = triples(&f1);
    let mut s2 = triples(&f2);
    s1.sort();
    s2.sort();
    assert_eq!(s1, s2);
}

#[test]
fn repeated_scans_of_an_unchanged_system_agree() {
    let snapshot = || {
        vec![PackageScan {
            name: b("foo"),
            files: lines(&["/usr/bin/foo"]),
            probes: vec![ProbeResult {
                success: true,
                lines: lines(&["libbar.so => not found", "libbar.so => not found"]),
            }],
        }]
    };
    let (f1, _) = run_scan(&snapshot());
    let (f2, _) = run_scan(&snapshot());
    assert_eq!(triples(&f1), triples(&f2));
    assert_eq!(f1.len(), 2);
}

#[test]
fn pool_size_is_capped_by_both_counts() {
    assert_eq!(stage_a_pool_size(8, 3), 3);
    assert_eq!(stage_a_pool_size(2, 100), 2);
    assert_eq!(stage_a_pool_size(4, 4), 4);
}
