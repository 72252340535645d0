use check_broken_packages::stray::active_lib_root;
use check_broken_packages::stray::detect_strays;
use check_broken_packages::stray::is_stray_dir;
use check_broken_packages::stray::lib_root_pattern;
use check_broken_packages::stray::DirOwners;
use check_broken_packages::version::PythonVersion;

fn b(s: &str) -> Vec<u8> {
    s.as_bytes().to_vec()
}

fn owners(names: &[&str]) -> Vec<Vec<u8>> {
    names.iter().map(|n| b(n)).collect()
}

fn pairs(findings: &[check_broken_packages::stray::StrayFinding]) -> Vec<(Vec<u8>, Vec<u8>)> {
    findings.iter().map(|f| (f.package.clone(), f.directory.clone())).collect()
}

#[test]
fn active_root_names_major_minor() {
    let v = PythonVersion { major: 3, minor: 9, release: 7, build: 2 };
    assert_eq!(active_lib_root(&v), b("/usr/lib/python3.9"));
    let v10 = PythonVersion { major: 3, minor: 10, release: 0, build: 1 };
    assert_eq!(active_lib_root(&v10), b("/usr/lib/python3.10"));
}

#[test]
fn pattern_covers_the_whole_major_version() {
    let v = PythonVersion { major: 3, minor: 9, release: 7, build: 2 };
    assert_eq!(lib_root_pattern(&v), b("/usr/lib/python3*"));
}

#[test]
fn only_the_active_root_is_not_stray() {
    let root = b("/usr/lib/python3.9");
    assert!(!is_stray_dir(&b("/usr/lib/python3.9"), &root));
    assert!(is_stray_dir(&b("/usr/lib/python3.8"), &root));
    assert!(is_stray_dir(&b("/usr/lib/python3.10"), &root));
}

#[test]
fn sibling_roots_reported_active_root_excluded() {
    let v = PythonVersion { major: 3, minor: 9, release: 7, build: 2 };
    let root = active_lib_root(&v);
    let entries = vec![
        DirOwners { directory: b("/usr/lib/python3.8"), owners: owners(&["oldpkg"]) },
        DirOwners { directory: b("/usr/lib/python3.9"), owners: owners(&["goodpkg"]) },
        DirOwners { directory: b("/usr/lib/python3.10"), owners: owners(&["newpkg", "otherpkg"]) },
    ];
    let findings = detect_strays(&entries, &root);
    assert_eq!(
        pairs(&findings),
        vec![
            (b("oldpkg"), b("/usr/lib/python3.8")),
            (b("newpkg"), b("/usr/lib/python3.10")),
            (b("otherpkg"), b("/usr/lib/python3.10")),
        ]
    );
}

#[test]
fn pairs_are_deduplicated() {
    let root = b("/usr/lib/python3.9");
    let entries = vec![
        DirOwners {
            directory: b("/usr/lib/python3.8"),
            owners: owners(&["pkg", "pkg", "other", "pkg"]),
        },
        DirOwners { directory: b("/usr/lib/python3.8"), owners: owners(&["pkg"]) },
        DirOwners { directory: b("/usr/lib/python3.10"), owners: owners(&["pkg"]) },
    ];
    let findings = detect_strays(&entries, &root);
    assert_eq!(
        pairs(&findings),
        vec![
            (b("pkg"), b("/usr/lib/python3.8")),
            (b("other"), b("/usr/lib/python3.8")),
            (b("pkg"), b("/usr/lib/python3.10")),
        ]
    );
}

#[test]
fn no_candidates_no_findings() {
    let root = b("/usr/lib/python3.9");
    let findings = detect_strays(&Vec::new(), &root);
    assert!(findings.is_empty());
}
