use zdefuser::security::SecurityContext;
use zdefuser::sevenz::SecurityContext as HostContext;

#[test]
fn sanitize_strips_parent_and_root() {
    assert_eq!(SecurityContext::sanitize_path("../../etc/passwd"), "etc/passwd");
    assert_eq!(SecurityContext::sanitize_path("/abs/path/file.txt"), "abs/path/file.txt");
}

#[test]
fn sanitize_normalizes_separators_and_dots() {
    assert_eq!(SecurityContext::sanitize_path("a/./b//c/"), "a/b/c");
    assert_eq!(SecurityContext::sanitize_path("./x"), "x");
    assert_eq!(SecurityContext::sanitize_path("a/b/../c"), "a/b/c");
}

#[test]
fn sanitize_empty_results_get_fallback_name() {
    assert_eq!(SecurityContext::sanitize_path(""), "unnamed_sanitized_file");
    assert_eq!(SecurityContext::sanitize_path("../.."), "unnamed_sanitized_file");
    assert_eq!(SecurityContext::sanitize_path("/"), "unnamed_sanitized_file");
    assert_eq!(SecurityContext::sanitize_path("\u{202E}"), "unnamed_sanitized_file");
}

#[test]
fn sanitize_removes_rtlo_and_control_chars() {
    assert_eq!(SecurityContext::sanitize_path("invoice\u{202E}fdp.exe"), "invoicefdp.exe");
    assert_eq!(SecurityContext::sanitize_path("a\tb\nc\rd\0e\u{8}f"), "abcdef");
    assert_eq!(SecurityContext::sanitize_path("x\u{200F}\u{202A}\u{202B}\u{202C}\u{202D}\u{202F}y"), "xy");
}

#[test]
fn sanitize_keeps_safe_paths() {
    assert_eq!(SecurityContext::sanitize_path("docs/readme.txt"), "docs/readme.txt");
    assert_eq!(SecurityContext::sanitize_path("unnamed_sanitized_file"), "unnamed_sanitized_file");
    assert_eq!(SecurityContext::sanitize_path("..."), "...");
}

#[test]
fn sanitize_is_idempotent_on_examples() {
    for p in ["../a/./b", "/x//y/", "", "..", "dir/\u{202E}name", "a/b/c", "\t/etc", "x\\y", "C:\\z", ".\0./q", "C:C:a", "d/a:b"] {
        let once = SecurityContext::sanitize_path(p);
        assert_eq!(SecurityContext::sanitize_path(&once), once);
    }
}

#[test]
fn sanitize_removes_characters_before_splitting() {
    // Stripped characters cannot hide a root, a parent or an empty piece.
    assert_eq!(SecurityContext::sanitize_path("\t/etc/passwd"), "etc/passwd");
    assert_eq!(SecurityContext::sanitize_path(".\t./x"), "x");
    assert_eq!(SecurityContext::sanitize_path(".\t./.\t./etc/passwd"), "etc/passwd");
    assert_eq!(SecurityContext::sanitize_path("a/\u{0}/b"), "a/b");
    let once = SecurityContext::sanitize_path("\t/etc");
    assert_eq!(once, "etc");
    assert_eq!(SecurityContext::sanitize_path(&once), once);
}

#[test]
fn sanitize_strips_drives_and_backslashes() {
    assert_eq!(SecurityContext::sanitize_path("C:\\evil.exe"), "evil.exe");
    assert_eq!(SecurityContext::sanitize_path("c:/Windows/System32/x.dll"), "Windows/System32/x.dll");
    assert_eq!(SecurityContext::sanitize_path("a\\b\\..\\c"), "a/b/c");
    assert_eq!(SecurityContext::sanitize_path("\\\\server\\share\\f"), "server/share/f");
    assert_eq!(SecurityContext::sanitize_path("D:"), "unnamed_sanitized_file");
    assert_eq!(SecurityContext::sanitize_path("a/C:b"), "a/C:b");
    assert_eq!(SecurityContext::sanitize_path("d/a:b"), "d/a:b");
    assert_eq!(SecurityContext::sanitize_path("docs/a:b.txt"), "docs/a:b.txt");
    assert_eq!(SecurityContext::sanitize_path("C:x"), "x");
    assert_eq!(SecurityContext::sanitize_path("C:C:x/y"), "x/y");
    assert_eq!(SecurityContext::sanitize_path("x:1"), "1");
    assert_eq!(SecurityContext::sanitize_path("/C:/y"), "y");
    assert_eq!(SecurityContext::sanitize_path("./C:.."), "unnamed_sanitized_file");
    assert_eq!(SecurityContext::sanitize_path("1:x/y"), "1:x/y");
}

#[test]
fn host_sanitize_matches_sandbox_sanitize() {
    for p in ["../../etc/passwd", "a/./b", "", "x\u{202E}y"] {
        assert_eq!(HostContext::sanitize_path(p), SecurityContext::sanitize_path(p));
    }
}
