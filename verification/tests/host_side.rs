use zdefuser::host::{
    audit_path, audit_total, default_host_limit, extraction_command, line_reports_error, reports_error, sandbox_fuel, SandboxReport,
    SANDBOX_BASE_FUEL, SANDBOX_STDOUT_CAPACITY, event_lines, sandbox_file_name, sandbox_input_path,
    strip_exec_bits, trap_line, AuditEntry, DEFAULT_MAX_TOTAL_BYTES,
};
use zdefuser::protocol::{plan_command, ArchiveFormat, HostCommand, HostLimit, SandboxEvent};
use zdefuser::sevenz::{
    complete_line, open_error_line, plan_7z_entry, progress_line, read_error_line, SecurityContext, SevenZEntry,
};
use zdefuser::extract::EntryAction;

fn cmd(action: &str, path: &str) -> HostCommand {
    HostCommand {
        action: action.to_string(),
        archive_path: path.to_string(),
        output_dir: "/sandbox/output/".to_string(),
        limits: HostLimit { max_ratio: 100, max_total_bytes: 1, max_files: 1 },
        password: None,
    }
}

#[test]
fn command_formats() {
    assert_eq!(plan_command(&cmd("extract", "/sandbox/a.zip")), Ok(ArchiveFormat::Zip));
    assert_eq!(plan_command(&cmd("extract", "/sandbox/a.rar")), Ok(ArchiveFormat::Rar));
    assert_eq!(plan_command(&cmd("extract", "/sandbox/a.tar")), Ok(ArchiveFormat::Tar));
    assert_eq!(plan_command(&cmd("extract", "/sandbox/a.tar.gz")), Ok(ArchiveFormat::TarGz));
    assert_eq!(plan_command(&cmd("extract", "/sandbox/a.tgz")), Ok(ArchiveFormat::TarGz));
}

#[test]
fn command_errors() {
    assert_eq!(
        plan_command(&cmd("extract", "/sandbox/a.7z")),
        Err(SandboxEvent::Error { code: "EXTRACT_FAILED".to_string(), details: "Unsupported format".to_string() })
    );
    assert_eq!(
        plan_command(&cmd("list", "/sandbox/a.zip")),
        Err(SandboxEvent::Error { code: "UNKNOWN_ACTION".to_string(), details: "Action `list` not supported".to_string() })
    );
}

#[test]
fn default_limits() {
    let l = default_host_limit();
    assert_eq!(l, HostLimit { max_ratio: 100, max_total_bytes: 100 * 1024 * 1024 * 1024, max_files: 500_000 });
    assert_eq!(DEFAULT_MAX_TOTAL_BYTES, 107_374_182_400);
}

#[test]
fn input_paths_in_sandbox() {
    assert_eq!(sandbox_input_path("/home/u/Downloads/a.zip", false), "/sandbox/a.zip");
    assert_eq!(sandbox_input_path("a.tar.gz", false), "/sandbox/a.tar.gz");
    assert_eq!(sandbox_input_path("dir/x.rar/.", false), "/sandbox/x.rar");
    assert_eq!(sandbox_input_path("/", false), "/sandbox/input.archive");
    assert_eq!(sandbox_input_path("dir/..", false), "/sandbox/input.archive");
    assert_eq!(sandbox_input_path(".", false), "/sandbox/input.archive");
    assert_eq!(sandbox_file_name("", false), "input.archive");
}

#[test]
fn event_lines_skip_blank_lines() {
    assert_eq!(event_lines("a\r\n\n  \nb"), vec!["a".to_string(), "b".to_string()]);
    assert_eq!(event_lines(""), Vec::<String>::new());
    assert_eq!(event_lines("x\r"), vec!["x\r".to_string()]);
    assert_eq!(event_lines("\u{3000}\n z \n"), vec![" z ".to_string()]);
}

#[test]
fn trap_line_text() {
    assert_eq!(
        trap_line("all fuel consumed"),
        r#"{"type": "error", "code": "WASM_TRAP", "details": "Execution crashed or ran out of fuel: all fuel consumed"}"#
    );
}

#[test]
fn audit_entries() {
    let root = "/tmp/z/output";
    let ok = AuditEntry { display: "d".to_string(), is_symlink: false, canonical: "/tmp/z/output/a/b".to_string() };
    assert_eq!(audit_path(root, &ok, false), Ok(()));
    let link = AuditEntry { display: "/tmp/z/output/l".to_string(), is_symlink: true, canonical: "/tmp/z/output/l".to_string() };
    assert_eq!(audit_path(root, &link, false), Err("Security violation: Symlink detected at /tmp/z/output/l".to_string()));
    let out = AuditEntry { display: "e".to_string(), is_symlink: false, canonical: "/tmp/z/outputs/e".to_string() };
    assert_eq!(audit_path(root, &out, false), Err("Security violation: Extracted file escaped sandbox e".to_string()));
    let dotted = AuditEntry { display: "f".to_string(), is_symlink: false, canonical: "/tmp//z/./output/f".to_string() };
    assert_eq!(audit_path(root, &dotted, false), Ok(()));
    assert_eq!(audit_total(5, 5, 10), Ok(10));
    assert_eq!(audit_total(5, 6, 10), Err("Security violation: Total size exceeded during host audit".to_string()));
}

#[test]
fn stripped_permissions() {
    assert_eq!(strip_exec_bits(0o100755), 0o644);
    assert_eq!(strip_exec_bits(0o4777), 0o666);
    assert_eq!(strip_exec_bits(0o600), 0o600);
    assert_eq!(strip_exec_bits(strip_exec_bits(0o7777)), strip_exec_bits(0o7777));
}

#[test]
fn sevenz_entries() {
    let mut ctx = SecurityContext::new(100, 1000, 10, 0);
    let mut count = 0usize;
    let e = SevenZEntry { name: String::new(), is_directory: false, has_stream: true, size: 5 };
    let p = plan_7z_entry(&mut ctx, &mut count, &e);
    assert_eq!(p.action, EntryAction::Skip);
    assert!(p.lines.is_empty());
    let e = SevenZEntry { name: "../\"q\".txt".to_string(), is_directory: false, has_stream: true, size: 5 };
    let p = plan_7z_entry(&mut ctx, &mut count, &e);
    assert_eq!(
        p.lines,
        vec![r#"{"type": "warning", "code": "PATH_SANITIZED", "file": "../\"q\".txt", "details": "Path traversal or dangerous characters neutralized"}"#.to_string()]
    );
    assert_eq!(p.action, EntryAction::WriteFile("\"q\".txt".to_string()));
    assert_eq!((count, ctx.blocked_files, ctx.extracted_files, ctx.extracted_bytes), (1, 1, 1, 5));
    let e = SevenZEntry { name: "d".to_string(), is_directory: true, has_stream: false, size: 0 };
    let p = plan_7z_entry(&mut ctx, &mut count, &e);
    assert_eq!(p.action, EntryAction::CreateDir("d".to_string()));
    assert_eq!((count, ctx.extracted_files), (2, 1));
    let e = SevenZEntry { name: "big".to_string(), is_directory: false, has_stream: true, size: 996 };
    let p = plan_7z_entry(&mut ctx, &mut count, &e);
    assert_eq!(p.lines, vec![r#"{"type": "error", "code": "TOO_LARGE", "details": "limit exceeded"}"#.to_string()]);
    assert_eq!(p.action, EntryAction::Abort);
    assert_eq!(count, 2);
}

#[test]
fn sevenz_lines() {
    assert_eq!(
        progress_line(3, "a\"b", 42),
        r#"{"type": "progress", "current": 3, "total": 0, "file": "a\"b", "bytes": 42}"#
    );
    let mut ctx = SecurityContext::new(1, 1, 1, 0);
    ctx.extracted_files = 12;
    ctx.blocked_files = 0;
    ctx.extracted_bytes = 18446744073709551615;
    assert_eq!(
        complete_line(&ctx),
        r#"{"type": "complete", "files_extracted": 12, "files_blocked": 0, "total_bytes": 18446744073709551615}"#
    );
    assert_eq!(
        open_error_line("Wrong PASSWORD \"x\""),
        r#"{"type": "error", "code": "PASSWORD_REQUIRED", "details": "Password required for encrypted archive: Wrong PASSWORD \"x\""}"#
    );
    assert_eq!(
        open_error_line("bad header"),
        r#"{"type": "error", "code": "EXTRACT_FAILED", "details": "Invalid 7z archive: bad header"}"#
    );
    assert_eq!(
        read_error_line("CRC CheckSum mismatch"),
        r#"{"type": "error", "code": "PASSWORD_REQUIRED", "details": "Password required or invalid for encrypted archive."}"#
    );
    assert_eq!(
        read_error_line("CHEC\u{212A}SUM"),
        r#"{"type": "error", "code": "PASSWORD_REQUIRED", "details": "Password required or invalid for encrypted archive."}"#
    );
    assert_eq!(
        read_error_line("io"),
        r#"{"type": "error", "code": "EXTRACT_FAILED", "details": "io"}"#
    );
}

#[test]
fn error_lines_fail_the_analysis() {
    assert!(line_reports_error(r#"{"type": "error", "code": "X", "details": "y"}"#));
    assert!(line_reports_error(&trap_line("boom")));
    assert!(!line_reports_error(r#"{"type": "warning", "code": "X"}"#));
    assert!(!line_reports_error(r#"{"type": 1}"#));
    assert!(!line_reports_error("not json"));
    assert!(reports_error(&Some(Some("error".to_string()))));
    assert!(!reports_error(&Some(None)));
    assert!(!reports_error(&None));
}

#[test]
fn extensions_in_any_case() {
    assert_eq!(plan_command(&cmd("extract", "/sandbox/A.ZIP")), Ok(ArchiveFormat::Zip));
    assert_eq!(plan_command(&cmd("extract", "/sandbox/a.Rar")), Ok(ArchiveFormat::Rar));
    assert_eq!(plan_command(&cmd("extract", "/sandbox/a.TAR")), Ok(ArchiveFormat::Tar));
    assert_eq!(plan_command(&cmd("extract", "/sandbox/a.TAR.GZ")), Ok(ArchiveFormat::TarGz));
    assert_eq!(plan_command(&cmd("extract", "/sandbox/a.TgZ")), Ok(ArchiveFormat::TarGz));
    assert!(plan_command(&cmd("EXTRACT", "/sandbox/a.zip")).is_err());
}

#[test]
fn fuel_grows_with_archive_size() {
    assert_eq!(sandbox_fuel(0), SANDBOX_BASE_FUEL);
    assert_eq!(sandbox_fuel(1000), 5_000_000_000 + 1_000_000);
    assert!(sandbox_fuel(50_000_000_000) > sandbox_fuel(1_000_000));
    assert_eq!(sandbox_fuel(u64::MAX), u64::MAX);
    assert_eq!(SANDBOX_STDOUT_CAPACITY, 250 * 1024 * 1024);
}

#[test]
fn first_gate_fails_on_any_error_line() {
    let mut r = SandboxReport::new();
    assert_eq!(r.verdict(true), Ok(()));
    assert!(r.verdict(false).is_err());
    r.observe(r#"{"type": "progress", "current": 1}"#);
    assert_eq!(r.verdict(true), Ok(()));
    r.observe(r#"{"type": "error", "code": "TOO_MANY_FILES", "details": "limit exceeded"}"#);
    r.observe(r#"{"type": "complete"}"#);
    assert_eq!(
        r.verdict(true),
        Err("Sandbox analysis failed due to a security violation or extraction error.".to_string())
    );
}

#[test]
fn windows_style_host_paths() {
    assert_eq!(sandbox_input_path("C:\\Users\\u\\Downloads\\a.zip", true), "/sandbox/a.zip");
    assert_eq!(sandbox_input_path("C:", true), "/sandbox/input.archive");
    let root = "\\\\?\\C:\\Temp\\zd\\output";
    let inside = AuditEntry { display: "f".to_string(), is_symlink: false, canonical: "\\\\?\\C:\\Temp\\zd\\output\\f".to_string() };
    assert_eq!(audit_path(root, &inside, true), Ok(()));
    let outside = AuditEntry { display: "g".to_string(), is_symlink: false, canonical: "\\\\?\\C:\\Temp\\g".to_string() };
    assert!(audit_path(root, &outside, true).is_err());
}

#[test]
fn host_file_names_follow_the_platform() {
    assert_eq!(sandbox_input_path("d/a:b.zip", false), "/sandbox/a:b.zip");
    assert_eq!(sandbox_input_path("d/a:b.zip", true), "/sandbox/a:b.zip");
    assert_eq!(sandbox_input_path("dir\\a.zip", false), "/sandbox/dir\\a.zip");
    assert_eq!(sandbox_input_path("dir\\a.zip", true), "/sandbox/a.zip");
    assert_eq!(sandbox_input_path("C:a.zip", true), "/sandbox/a.zip");
    assert_eq!(sandbox_input_path("C:a.zip", false), "/sandbox/C:a.zip");
    assert_eq!(sandbox_input_path("C:", false), "/sandbox/C:");
    assert_eq!(sandbox_input_path("C:\\", true), "/sandbox/input.archive");
    // On Windows a path on another drive is not under the root.
    let root = "C:\\Temp\\zd";
    let other = AuditEntry { display: "x".to_string(), is_symlink: false, canonical: "D:\\Temp\\zd\\x".to_string() };
    assert!(audit_path(root, &other, true).is_err());
    let same = AuditEntry { display: "y".to_string(), is_symlink: false, canonical: "C:\\Temp\\zd\\y".to_string() };
    assert_eq!(audit_path(root, &same, true), Ok(()));
}

#[test]
fn host_extraction_command() {
    let c = extraction_command("/sandbox/a.zip".to_string(), Some("pw".to_string()));
    assert_eq!(c.action, "extract");
    assert_eq!(c.archive_path, "/sandbox/a.zip");
    assert_eq!(c.output_dir, "/sandbox/output/");
    assert_eq!(c.limits, default_host_limit());
    assert_eq!(c.password, Some("pw".to_string()));
}
