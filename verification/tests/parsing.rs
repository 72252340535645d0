use check_broken_packages::ldd::missing_dependencies;
use check_broken_packages::manifest::manifest_path;
use check_broken_packages::version::parse_python_version;
use check_broken_packages::version::parse_version;
use check_broken_packages::version::version_text;
use check_broken_packages::version::PythonVersion;

fn b(s: &str) -> Vec<u8> {
    s.as_bytes().to_vec()
}

fn lines(ls: &[&str]) -> Vec<Vec<u8>> {
    ls.iter().map(|l| b(l)).collect()
}

#[test]
fn test_get_missing_dependencies() {
    let probe_lines = lines(&[
        "\tlinux-vdso.so.1 (0x00007ffea89a7000)",
        "\tlibavdevice.so.57 => not found",
        "\tlibavfilter.so.6 => not found",
        "\tlibavformat.so.57 => not found",
        "\tlibavcodec.so.57 => not found",
        "\tlibavresample.so.3 => not found",
        "\tlibpostproc.so.54 => not found",
        "\tlibswresample.so.2 => not found",
        "\tlibswscale.so.4 => not found",
        "\tlibavutil.so.55 => not found",
        "\tlibm.so.6 => /usr/lib/libm.so.6 (0x00007f4bd9cc3000)",
        "\tlibpthread.so.0 => /usr/lib/libpthread.so.0 (0x00007f4bd9ca2000)",
        "\tlibc.so.6 => /usr/lib/libc.so.6 (0x00007f4bd9add000)",
        "\t/lib64/ld-linux-x86-64.so.2 => /usr/lib64/ld-linux-x86-64.so.2 (0x00007f4bda08d000)",
    ]);
    assert_eq!(
        missing_dependencies(true, &probe_lines),
        lines(&[
            "libavdevice.so.57",
            "libavfilter.so.6",
            "libavformat.so.57",
            "libavcodec.so.57",
            "libavresample.so.3",
            "libpostproc.so.54",
            "libswresample.so.2",
            "libswscale.so.4",
            "libavutil.so.55",
        ])
    );
}

#[test]
fn missing_line_kept_resolved_line_ignored() {
    let probe_lines = lines(&["X => not found", "Y => /path (0xaddr)"]);
    assert_eq!(missing_dependencies(true, &probe_lines), lines(&["X"]));
}

#[test]
fn failed_probe_yields_no_findings() {
    let probe_lines = lines(&["X => not found"]);
    assert_eq!(missing_dependencies(false, &probe_lines), Vec::<Vec<u8>>::new());
}

#[test]
fn missing_deps_keep_probe_order_and_repeats() {
    let probe_lines = lines(&[
        "libz.so => not found",
        "liba.so => /usr/lib/liba.so (0x1)",
        "libz.so => not found",
    ]);
    assert_eq!(
        missing_dependencies(true, &probe_lines),
        lines(&["libz.so", "libz.so"])
    );
}

#[test]
fn version_text_parses() {
    assert_eq!(
        parse_version(&b("3.9.7-2")),
        Some(PythonVersion { major: 3, minor: 9, release: 7, build: 2 })
    );
    assert_eq!(
        parse_version(&b("3.10.0-1")),
        Some(PythonVersion { major: 3, minor: 10, release: 0, build: 1 })
    );
}

#[test]
fn malformed_version_text_is_rejected() {
    assert_eq!(parse_version(&b("")), None);
    assert_eq!(parse_version(&b("3.9.7")), None);
    assert_eq!(parse_version(&b("3.9")), None);
    assert_eq!(parse_version(&b("3..7-2")), None);
    assert_eq!(parse_version(&b("3.9.7-")), None);
    assert_eq!(parse_version(&b("3.9.7-256")), None);
    assert_eq!(parse_version(&b("a.9.7-2")), None);
}

#[test]
fn version_read_from_metadata_lines() {
    let info = lines(&[
        "Name            : python",
        "Version         : 3.9.7-2",
        "Description     : Next generation of the python high-level scripting language",
    ]);
    assert_eq!(
        parse_python_version(&info),
        Some(PythonVersion { major: 3, minor: 9, release: 7, build: 2 })
    );
}

#[test]
fn metadata_without_version_line_is_fatal() {
    let info = lines(&["Name            : python"]);
    assert_eq!(parse_python_version(&info), None);
}

#[test]
fn version_line_without_colon_is_fatal() {
    let info = lines(&["Version 3.9.7-2"]);
    assert_eq!(parse_python_version(&info), None);
}

#[test]
fn version_renders_for_display() {
    let v = PythonVersion { major: 3, minor: 10, release: 0, build: 12 };
    assert_eq!(version_text(&v), b("3.10.0-12"));
}

#[test]
fn rendered_version_parses_back() {
    let v = PythonVersion { major: 3, minor: 9, release: 7, build: 2 };
    assert_eq!(parse_version(&version_text(&v)), Some(v));
    let w = PythonVersion { major: 255, minor: 0, release: 10, build: 100 };
    assert_eq!(parse_version(&version_text(&w)), Some(w));
}

#[test]
fn manifest_line_names_its_path() {
    assert_eq!(manifest_path(&b("python /usr/bin/python")), Some(b("/usr/bin/python")));
    assert_eq!(manifest_path(&b("python")), None);
}
