use zdefuser::extract::{
    plan_rar_entry, plan_tar_entry, plan_zip_entry, progress_due, rar_needs_password, rar_output_dir,
    zip_needs_password, EntryAction, RarEntry, TarEntry, TarKind, ZipEntry,
};
use zdefuser::protocol::SandboxEvent;
use zdefuser::security::SecurityContext;

fn zip(name: Option<&str>, raw: &str, link: bool, c: u64, u: u64) -> ZipEntry {
    ZipEntry {
        enclosed_name: name.map(|n| n.to_string()),
        raw_name: raw.to_string(),
        is_symlink: link,
        compressed_size: c,
        uncompressed_size: u,
    }
}

fn warning(code: &str, file: &str, details: &str) -> SandboxEvent {
    SandboxEvent::Warning { code: code.to_string(), file: file.to_string(), details: details.to_string() }
}

#[test]
fn zip_entry_without_safe_path_is_skipped() {
    let mut ctx = SecurityContext::new(100, 1000, 10, 0);
    let p = plan_zip_entry(&mut ctx, &zip(None, "../evil", false, 1, 1));
    assert_eq!(p.events, vec![warning("INVALID_PATH", "../evil", "Path is missing or invalid")]);
    assert_eq!(p.action, EntryAction::Skip);
    assert_eq!(ctx.extracted_files, 0);
    assert_eq!(ctx.blocked_files, 0);
}

#[test]
fn zip_plain_file_is_written() {
    let mut ctx = SecurityContext::new(100, 1000, 10, 0);
    let p = plan_zip_entry(&mut ctx, &zip(Some("dir/a.txt"), "dir/a.txt", false, 5, 10));
    assert!(p.events.is_empty());
    assert_eq!(p.action, EntryAction::WriteFile("dir/a.txt".to_string()));
    assert_eq!(ctx.extracted_files, 1);
    assert_eq!(ctx.extracted_bytes, 10);
}

#[test]
fn zip_directory_entry_is_created() {
    let mut ctx = SecurityContext::new(100, 1000, 10, 0);
    let p = plan_zip_entry(&mut ctx, &zip(Some("dir/"), "dir/", false, 0, 0));
    // The stored name ends with a separator, which the sanitizer drops.
    assert_eq!(p.events, vec![warning("PATH_SANITIZED", "dir/", "Path traversal neutralized")]);
    assert_eq!(p.action, EntryAction::CreateDir("dir".to_string()));
    assert_eq!(ctx.blocked_files, 1);
}

#[test]
fn zip_changed_path_is_reported_and_counted() {
    let mut ctx = SecurityContext::new(100, 1000, 10, 0);
    let p = plan_zip_entry(&mut ctx, &zip(Some("a/./b\u{202E}txt.exe"), "x", false, 1, 1));
    assert_eq!(p.events, vec![warning("PATH_SANITIZED", "a/./b\u{202E}txt.exe", "Path traversal neutralized")]);
    assert_eq!(p.action, EntryAction::WriteFile("a/btxt.exe".to_string()));
    assert_eq!(ctx.blocked_files, 1);
}

#[test]
fn zip_symlink_is_dropped() {
    let mut ctx = SecurityContext::new(100, 1000, 10, 0);
    let p = plan_zip_entry(&mut ctx, &zip(Some("link"), "link", true, 1, 1));
    assert_eq!(
        p.events,
        vec![warning("SYMLINK_IGNORED", "link", "Symlinks are zero-tolerance dropped for security")]
    );
    assert_eq!(p.action, EntryAction::Skip);
    assert_eq!(ctx.blocked_files, 1);
    assert_eq!(ctx.extracted_files, 0);
}

#[test]
fn zip_bomb_entry_aborts() {
    let mut ctx = SecurityContext::new(100, u64::MAX / 2, 10, 0);
    let p = plan_zip_entry(&mut ctx, &zip(Some("bomb.bin"), "bomb.bin", false, 1024, 2_097_152));
    assert_eq!(
        p.events,
        vec![SandboxEvent::Error {
            code: "HIGH_RATIO_ZIP_BOMB".to_string(),
            details: "limits exceeded. 2097152 > 1024".to_string(),
        }]
    );
    assert_eq!(p.action, EntryAction::Abort);
}

#[test]
fn tar_links_are_skipped() {
    let mut ctx = SecurityContext::new(100, 1000, 10, 0);
    for kind in [TarKind::Symlink, TarKind::HardLink] {
        let p = plan_tar_entry(&mut ctx, &TarEntry { name: "l".to_string(), kind, size: Some(3) });
        assert_eq!(p.events, vec![warning("SYMLINK_IGNORED", "l", "Symlinks are prohibited")]);
        assert_eq!(p.action, EntryAction::Skip);
    }
    assert_eq!(ctx.blocked_files, 2);
    assert_eq!(ctx.extracted_files, 0);
}

#[test]
fn tar_kinds_decide_the_action() {
    let mut ctx = SecurityContext::new(100, 1000, 10, 0);
    let d = plan_tar_entry(&mut ctx, &TarEntry { name: "d".to_string(), kind: TarKind::Directory, size: Some(0) });
    assert_eq!(d.action, EntryAction::CreateDir("d".to_string()));
    let f = plan_tar_entry(&mut ctx, &TarEntry { name: "d/f".to_string(), kind: TarKind::File, size: None });
    assert_eq!(f.action, EntryAction::WriteFile("d/f".to_string()));
    let o = plan_tar_entry(&mut ctx, &TarEntry { name: "fifo".to_string(), kind: TarKind::Other, size: Some(7) });
    assert_eq!(o.action, EntryAction::Keep);
    assert_eq!(ctx.extracted_files, 3);
    assert_eq!(ctx.extracted_bytes, 7);
}

#[test]
fn tar_limit_aborts() {
    let mut ctx = SecurityContext::new(100, 10, 10, 0);
    let p = plan_tar_entry(&mut ctx, &TarEntry { name: "../big".to_string(), kind: TarKind::File, size: Some(11) });
    assert_eq!(
        p.events,
        vec![
            warning("PATH_SANITIZED", "../big", "Path traversal neutralized"),
            SandboxEvent::Error { code: "TOTAL_SIZE_EXCEEDED".to_string(), details: "limit exceeded".to_string() },
        ]
    );
    assert_eq!(p.action, EntryAction::Abort);
}

#[test]
fn rar_unsafe_file_is_moved_and_reported() {
    let mut ctx = SecurityContext::new(100, 1000, 10, 0);
    let e = RarEntry { name: "../x.txt".to_string(), unpacked_size: 4, data_area_size: 2 };
    let p = plan_rar_entry(&mut ctx, &e, 1, 3);
    assert_eq!(p.relocate_to, Some("x.txt".to_string()));
    assert!(!p.abort);
    assert_eq!(
        p.events,
        vec![
            warning("PATH_SANITIZED", "../x.txt", "Blocked unsafe path or RTLO detected in RAR, neutralized"),
            SandboxEvent::Progress { current: 1, total: 3, file: "x.txt".to_string(), bytes: 4 },
        ]
    );
    assert_eq!(ctx.blocked_files, 1);
}

#[test]
fn rar_limit_aborts() {
    let mut ctx = SecurityContext::new(100, 1000, 0, 0);
    let e = RarEntry { name: "ok.txt".to_string(), unpacked_size: 4, data_area_size: 2 };
    let p = plan_rar_entry(&mut ctx, &e, 1, 1);
    assert_eq!(p.relocate_to, None);
    assert!(p.abort);
    assert_eq!(
        p.events,
        vec![SandboxEvent::Error { code: "TOO_MANY_FILES".to_string(), details: "limits exceeded. 4 > 2".to_string() }]
    );
}

#[test]
fn progress_every_ten_mebibytes() {
    assert!(!progress_due(10 * 1024 * 1024, 0));
    assert!(progress_due(10 * 1024 * 1024 + 1, 0));
    assert!(!progress_due(25, 20));
}

#[test]
fn password_messages() {
    assert!(zip_needs_password("Password required to decrypt file"));
    assert!(zip_needs_password("file is encrypted"));
    assert!(!zip_needs_password("invalid Zip archive"));
    assert!(rar_needs_password("InvalidPassword"));
    assert!(rar_needs_password("BadChecksum"));
    assert!(!rar_needs_password("password"));
}

#[test]
fn rar_output_dir_gets_trailing_slash() {
    assert_eq!(rar_output_dir("/sandbox/output"), "/sandbox/output/");
    assert_eq!(rar_output_dir("/sandbox/output/"), "/sandbox/output/");
}

fn blocking(events: &[SandboxEvent]) -> u32 {
    events
        .iter()
        .filter(|e| matches!(e, SandboxEvent::Warning { code, .. } if code == "PATH_SANITIZED" || code == "SYMLINK_IGNORED"))
        .count() as u32
}

#[test]
fn zip_run_counts_what_it_reports() {
    let mut ctx = SecurityContext::new(100, 1000, 10, 0);
    let entries = [
        zip(Some("a.txt"), "a.txt", false, 1, 10),
        zip(Some("../b.txt"), "../b.txt", false, 1, 20),
        zip(Some("../l"), "../l", true, 1, 30),
        zip(None, "/abs", false, 1, 40),
        zip(Some("d/"), "d/", false, 0, 0),
    ];
    let mut events = Vec::new();
    for e in &entries {
        let p = plan_zip_entry(&mut ctx, e);
        assert_ne!(p.action, EntryAction::Abort);
        events.extend(p.events);
    }
    assert_eq!(ctx.extracted_files, 3);
    assert_eq!(ctx.extracted_bytes, 30);
    assert_eq!(ctx.blocked_files, blocking(&events));
    assert_eq!(ctx.blocked_files, 4);
}

#[test]
fn tar_and_rar_runs_count_what_they_report() {
    let mut ctx = SecurityContext::new(100, 1000, 10, 0);
    let mut events = Vec::new();
    for (name, kind, size) in [("x", TarKind::File, 5), ("/y", TarKind::Directory, 0), ("z", TarKind::HardLink, 9)] {
        events.extend(plan_tar_entry(&mut ctx, &TarEntry { name: name.to_string(), kind, size: Some(size) }).events);
    }
    assert_eq!((ctx.extracted_files, ctx.extracted_bytes, ctx.blocked_files), (2, 5, blocking(&events)));
    let mut ctx = SecurityContext::new(100, 1000, 10, 0);
    let mut events = Vec::new();
    for (i, name) in ["ok", "../up", "\u{202E}x"].iter().enumerate() {
        let e = RarEntry { name: name.to_string(), unpacked_size: 7, data_area_size: 7 };
        events.extend(plan_rar_entry(&mut ctx, &e, (i + 1) as u32, 3).events);
    }
    assert_eq!((ctx.extracted_files, ctx.extracted_bytes, ctx.blocked_files), (3, 21, 2));
    assert_eq!(ctx.blocked_files, blocking(&events));
}
