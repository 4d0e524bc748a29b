use zdefuser::security::SecurityContext;
use zdefuser::sevenz::SecurityContext as HostContext;

#[test]
fn new_context_is_empty() {
    let ctx = SecurityContext::new(100, 1000, 5, 10);
    assert_eq!(ctx.max_ratio, 100);
    assert_eq!(ctx.max_total_bytes, 1000);
    assert_eq!(ctx.max_files, 5);
    assert_eq!(ctx.archive_size, 10);
    assert_eq!(ctx.extracted_bytes, 0);
    assert_eq!(ctx.extracted_files, 0);
    assert_eq!(ctx.blocked_files, 0);
}

#[test]
fn accepts_within_limits() {
    let mut ctx = SecurityContext::new(100, 1000, 5, 100);
    assert_eq!(ctx.record_and_check(10, 100), Ok(()));
    assert_eq!(ctx.record_and_check(10, 200), Ok(()));
    assert_eq!(ctx.extracted_files, 2);
    assert_eq!(ctx.extracted_bytes, 300);
}

#[test]
fn too_many_files_keeps_bytes() {
    let mut ctx = SecurityContext::new(100, 1000, 1, 0);
    assert_eq!(ctx.record_and_check(1, 1), Ok(()));
    assert_eq!(ctx.record_and_check(1, 5), Err("TOO_MANY_FILES"));
    assert_eq!(ctx.extracted_files, 2);
    assert_eq!(ctx.extracted_bytes, 1);
    // Refusal is sticky.
    assert_eq!(ctx.record_and_check(1, 0), Err("TOO_MANY_FILES"));
}

#[test]
fn total_size_exceeded() {
    let mut ctx = SecurityContext::new(100, 1000, 10, 0);
    assert_eq!(ctx.record_and_check(1, 600), Ok(()));
    assert_eq!(ctx.record_and_check(1, 401), Err("TOTAL_SIZE_EXCEEDED"));
    assert_eq!(ctx.extracted_bytes, 1001);
    assert_eq!(ctx.record_and_check(1, 0), Err("TOTAL_SIZE_EXCEEDED"));
}

#[test]
fn per_file_ratio_from_one_mebibyte() {
    let mut ctx = SecurityContext::new(100, u64::MAX / 2, 10, 0);
    // Below 1 MiB the entry's own ratio is not checked.
    assert_eq!(ctx.record_and_check(1, 1_048_575), Ok(()));
    // 2 MiB from 1 KiB is a ratio of 2048.
    assert_eq!(ctx.record_and_check(1024, 2_097_152), Err("HIGH_RATIO_ZIP_BOMB"));
    // An unknown compressed size (0) skips the entry's own ratio.
    assert_eq!(ctx.record_and_check(0, 2_097_152), Ok(()));
    // A ratio of exactly the limit passes.
    assert_eq!(ctx.record_and_check(20_972, 2_097_200), Ok(()));
}

#[test]
fn global_ratio_against_archive_size() {
    let mut ctx = SecurityContext::new(100, u64::MAX / 2, 10, 10);
    assert_eq!(ctx.record_and_check(0, 1000), Ok(()));
    assert_eq!(ctx.record_and_check(0, 9), Ok(()));
    assert_eq!(ctx.record_and_check(0, 1), Err("HIGH_RATIO_ZIP_BOMB"));
}

#[test]
fn record_leaves_blocked_and_limits() {
    let mut ctx = SecurityContext::new(7, 70, 3, 0);
    ctx.blocked_files = 4;
    let _ = ctx.record_and_check(1, 1);
    assert_eq!(ctx.blocked_files, 4);
    assert_eq!(ctx.max_ratio, 7);
    assert_eq!(ctx.max_total_bytes, 70);
    assert_eq!(ctx.max_files, 3);
}

#[test]
fn accepted_run_counts_every_entry() {
    let entries = [(1u64, 10u64), (2, 20), (3, 30), (4, 40)];
    let mut ctx = SecurityContext::new(100, 1000, 10, 0);
    for (c, u) in entries {
        assert_eq!(ctx.record_and_check(c, u), Ok(()));
    }
    assert_eq!(ctx.extracted_files, 4);
    assert_eq!(ctx.extracted_bytes, 100);
}

#[test]
fn host_context_adds_bytes_before_checking() {
    let mut ctx = HostContext::new(100, 1000, 1, 0);
    assert_eq!(ctx.record_and_check(0, 5), Ok(()));
    assert_eq!(ctx.record_and_check(0, 7), Err("TOO_MANY_FILES"));
    assert_eq!(ctx.extracted_files, 2);
    assert_eq!(ctx.extracted_bytes, 12);
}

#[test]
fn host_context_codes() {
    let mut ctx = HostContext::new(100, 100, 10, 0);
    assert_eq!(ctx.record_and_check(0, 101), Err("TOO_LARGE"));
    let mut ctx = HostContext::new(2, 1000, 10, 10);
    assert_eq!(ctx.record_and_check(0, 29), Ok(()));
    assert_eq!(ctx.record_and_check(0, 1), Err("HIGH_RATIO_ZIP_BOMB"));
    let mut ctx = HostContext::new(2, 1000, 10, 0);
    assert_eq!(ctx.record_and_check(0, 999), Ok(()));
}

#[test]
fn host_new_context_is_empty() {
    let ctx = HostContext::new(1, 2, 3, 4);
    assert_eq!((ctx.max_ratio, ctx.max_total_bytes, ctx.max_files, ctx.archive_size), (1, 2, 3, 4));
    assert_eq!((ctx.extracted_bytes, ctx.extracted_files, ctx.blocked_files), (0, 0, 0));
}
