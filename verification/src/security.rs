//! Extraction limits inside the sandbox: the counters that every extracted
//! entry is recorded in, and the checks against decompression bombs.

use vstd::prelude::*;
use crate::path::{sanitize, sanitized};

verus! {

/// The uncompressed size from which a single entry's own compression
/// ratio is checked (1 MiB).
pub const PER_FILE_RATIO_THRESHOLD: u64 = 1048576;

/// Limits of one extraction and what has been extracted so far.
pub struct SecurityContext {
    pub max_ratio: u32,
    pub max_total_bytes: u64,
    pub max_files: u32,
    pub archive_size: u64,
    pub extracted_bytes: u64,
    pub extracted_files: u32,
    pub blocked_files: u32,
}

impl SecurityContext {
    /// The refusal code that recording an entry of the given sizes gives,
    /// or `None` where the entry is accepted.
    pub open spec fn record_verdict(self, compressed_size: u64, uncompressed_size: u64) -> Option<Seq<char>> {
        let files = self.extracted_files + 1;
        let bytes = self.extracted_bytes + uncompressed_size;
        if files > self.max_files {
            Some("TOO_MANY_FILES"@)
        } else if bytes > self.max_total_bytes {
            Some("TOTAL_SIZE_EXCEEDED"@)
        } else if uncompressed_size >= PER_FILE_RATIO_THRESHOLD && compressed_size > 0
            && uncompressed_size / compressed_size > self.max_ratio {
            Some("HIGH_RATIO_ZIP_BOMB"@)
        } else if self.archive_size > 0 && bytes / self.archive_size as int > self.max_ratio {
            Some("HIGH_RATIO_ZIP_BOMB"@)
        } else {
            None
        }
    }

    /// The context after an entry of the given uncompressed size is
    /// recorded: one more file, and its bytes unless the file count was
    /// already over the limit.
    pub open spec fn recorded(self, uncompressed_size: u64) -> SecurityContext {
        SecurityContext {
            extracted_files: (self.extracted_files + 1) as u32,
            extracted_bytes: if self.extracted_files + 1 > self.max_files {
                self.extracted_bytes
            } else {
                (self.extracted_bytes + uncompressed_size) as u64
            },
            ..self
        }
    }

    /// Recording an entry of this size cannot overflow the counters.
    pub open spec fn can_record(self, uncompressed_size: u64) -> bool {
        &&& self.extracted_files < u32::MAX
        &&& self.extracted_files + 1 <= self.max_files ==> self.extracted_bytes + uncompressed_size
            <= u64::MAX
    }

    /// A cumulative limit (files, total bytes, or the ratio of the bytes
    /// extracted to the archive's size) is exceeded.
    pub open spec fn exceeds_totals(self) -> bool {
        ||| self.extracted_files > self.max_files
        ||| self.extracted_bytes > self.max_total_bytes
        ||| (self.archive_size > 0 && self.extracted_bytes as int / self.archive_size as int > self.max_ratio)
    }

    /// A fresh context with the given limits and nothing extracted yet.
    pub fn new(max_ratio: u32, max_total_bytes: u64, max_files: u32, archive_size: u64) -> (r: Self)
        ensures
            r.max_ratio == max_ratio,
            r.max_total_bytes == max_total_bytes,
            r.max_files == max_files,
            r.archive_size == archive_size,
            r.extracted_bytes == 0,
            r.extracted_files == 0,
            r.blocked_files == 0,
    {
        SecurityContext {
            max_ratio,
            max_total_bytes,
            max_files,
            archive_size,
            extracted_bytes: 0,
            extracted_files: 0,
            blocked_files: 0,
        }
    }

    /// Sanitize path to prevent Path Traversal and RTLO attacks.
    /// It strips dangerous components (like `..`, `/`, `C:\`) and returns a
    /// safe relative path (`law_sanitized_is_safe`).
    pub fn sanitize_path(filepath: &str) -> (r: String)
        ensures
            r@ == sanitized(filepath@),
    {
        sanitize(filepath)
    }

    /// Records one more entry and checks the limits against zip bombs:
    /// the number of files, the total uncompressed size, the entry's own
    /// compression ratio (for entries of at least 1 MiB whose compressed
    /// size is known), and the ratio of everything extracted to the
    /// archive's size.
    pub fn record_and_check(&mut self, compressed_size: u64, uncompressed_size: u64) -> (r: Result<(), &'static str>)
        requires
            old(self).can_record(uncompressed_size),
        ensures
            *final(self) == old(self).recorded(uncompressed_size),
            match old(self).record_verdict(compressed_size, uncompressed_size) {
                None => r is Ok,
                Some(code) => r matches Err(e) && e@ == code,
            },
    {
        self.extracted_files += 1;
        if self.extracted_files > self.max_files {
            return Err("TOO_MANY_FILES");
        }
        self.extracted_bytes += uncompressed_size;
        if self.extracted_bytes > self.max_total_bytes {
            return Err("TOTAL_SIZE_EXCEEDED");
        }
        // The entry's own ratio, where its compressed size is known.
        if uncompressed_size >= PER_FILE_RATIO_THRESHOLD && compressed_size > 0 {
            let ratio = uncompressed_size / compressed_size;
            if ratio > self.max_ratio as u64 {
                return Err("HIGH_RATIO_ZIP_BOMB");
            }
        }
        // The ratio of everything extracted to the archive's size; this
        // catches solid archives whose entries have no compressed size.
        if self.archive_size > 0 {
            let global_ratio = self.extracted_bytes / self.archive_size;
            if global_ratio > self.max_ratio as u64 {
                return Err("HIGH_RATIO_ZIP_BOMB");
            }
        }
        Ok(())
    }

    /// The context after recording each entry in turn (compressed and
    /// uncompressed size), and whether every one of them was accepted.
    pub open spec fn record_all(self, entries: Seq<(u64, u64)>) -> (SecurityContext, bool)
        decreases entries.len(),
    {
        if entries.len() == 0 {
            (self, true)
        } else {
            let (ctx, ok) = self.record_all(entries.drop_last());
            let (c, u) = entries.last();
            (ctx.recorded(u), ok && ctx.record_verdict(c, u) is None)
        }
    }
}

/// The sum of the uncompressed sizes of the entries.
pub open spec fn total_uncompressed(entries: Seq<(u64, u64)>) -> int
    decreases entries.len(),
{
    if entries.len() == 0 {
        0
    } else {
        total_uncompressed(entries.drop_last()) + entries.last().1
    }
}

/// An accepted entry leaves every cumulative limit respected.
pub proof fn law_accepted_entry_within_limits(ctx: SecurityContext, compressed_size: u64, uncompressed_size: u64)
    requires
        ctx.record_verdict(compressed_size, uncompressed_size) is None,
    ensures
        !ctx.recorded(uncompressed_size).exceeds_totals(),
        ctx.recorded(uncompressed_size).extracted_files <= ctx.max_files,
        ctx.recorded(uncompressed_size).extracted_bytes <= ctx.max_total_bytes,
{
}

/// Once a cumulative limit is exceeded, every later entry is refused and
/// the limit stays exceeded.
pub proof fn law_exceeded_totals_stay_refused(ctx: SecurityContext, compressed_size: u64, uncompressed_size: u64)
    requires
        ctx.exceeds_totals(),
        ctx.can_record(uncompressed_size),
    ensures
        ctx.record_verdict(compressed_size, uncompressed_size) is Some,
        ctx.recorded(uncompressed_size).exceeds_totals(),
{
    let bytes = ctx.extracted_bytes + uncompressed_size;
    if ctx.archive_size > 0 {
        assert(bytes / ctx.archive_size as int >= ctx.extracted_bytes as int / ctx.archive_size as int)
            by (nonlinear_arith)
            requires
                bytes >= ctx.extracted_bytes,
                ctx.archive_size > 0,
                ctx.extracted_bytes >= 0,
        ;
    }
}

/// A refusal other than an entry's own ratio means that a cumulative limit
/// is now exceeded (so every later entry is refused too).
pub proof fn law_cumulative_refusal_is_final(ctx: SecurityContext, compressed_size: u64, uncompressed_size: u64)
    requires
        ctx.can_record(uncompressed_size),
        ctx.record_verdict(compressed_size, uncompressed_size) is Some,
        !(uncompressed_size >= PER_FILE_RATIO_THRESHOLD && compressed_size > 0
            && uncompressed_size / compressed_size > ctx.max_ratio),
    ensures
        ctx.recorded(uncompressed_size).exceeds_totals(),
{
}

/// From a fresh context, a run of entries that are all accepted counts
/// every entry and every uncompressed byte, within the limits.
pub proof fn law_accepted_run_counts_exactly(ctx: SecurityContext, entries: Seq<(u64, u64)>)
    requires
        ctx.extracted_files == 0,
        ctx.extracted_bytes == 0,
        ctx.record_all(entries).1,
    ensures
        ctx.record_all(entries).0.extracted_files == entries.len(),
        ctx.record_all(entries).0.extracted_bytes == total_uncompressed(entries),
        ctx.record_all(entries).0.extracted_files <= ctx.max_files,
        ctx.record_all(entries).0.extracted_bytes <= ctx.max_total_bytes,
        ctx.record_all(entries).0.blocked_files == ctx.blocked_files,
    decreases entries.len(),
{
    if entries.len() > 0 {
        let d = entries.drop_last();
        law_accepted_run_counts_exactly(ctx, d);
        let (c, u) = entries.last();
        let prev = ctx.record_all(d).0;
        assert(prev.record_verdict(c, u) is None);
        lemma_record_all_keeps_limits(ctx, d);
    }
}

proof fn lemma_record_all_keeps_limits(ctx: SecurityContext, entries: Seq<(u64, u64)>)
    ensures
        ctx.record_all(entries).0.max_files == ctx.max_files,
        ctx.record_all(entries).0.max_total_bytes == ctx.max_total_bytes,
        ctx.record_all(entries).0.max_ratio == ctx.max_ratio,
        ctx.record_all(entries).0.archive_size == ctx.archive_size,
        ctx.record_all(entries).0.blocked_files == ctx.blocked_files,
    decreases entries.len(),
{
    if entries.len() > 0 {
        lemma_record_all_keeps_limits(ctx, entries.drop_last());
    }
}

/// What recording an entry answers, by each limit in turn: too many files
/// first; then a total over the limit; then, for an entry of at least
/// 1 MiB whose compressed size is known, its own compression ratio over
/// the limit, whatever the archive's size; then everything extracted over
/// `max_ratio` times the archive's size; otherwise the entry is accepted.
pub proof fn law_record_refusals(ctx: SecurityContext, compressed_size: u64, uncompressed_size: u64)
    ensures
        ctx.extracted_files + 1 > ctx.max_files ==> ctx.record_verdict(compressed_size, uncompressed_size)
            == Some("TOO_MANY_FILES"@),
        ctx.extracted_files + 1 <= ctx.max_files && ctx.extracted_bytes + uncompressed_size > ctx.max_total_bytes
            ==> ctx.record_verdict(compressed_size, uncompressed_size) == Some("TOTAL_SIZE_EXCEEDED"@),
        ctx.extracted_files + 1 <= ctx.max_files && ctx.extracted_bytes + uncompressed_size <= ctx.max_total_bytes
            && uncompressed_size >= 1048576 && compressed_size > 0
            && uncompressed_size / compressed_size > ctx.max_ratio
            ==> ctx.record_verdict(compressed_size, uncompressed_size) == Some("HIGH_RATIO_ZIP_BOMB"@),
        ctx.extracted_files + 1 <= ctx.max_files && ctx.extracted_bytes + uncompressed_size <= ctx.max_total_bytes
            && ctx.archive_size > 0
            && (ctx.extracted_bytes + uncompressed_size) / (ctx.archive_size as int) > ctx.max_ratio
            ==> ctx.record_verdict(compressed_size, uncompressed_size) == Some("HIGH_RATIO_ZIP_BOMB"@),
        ctx.record_verdict(compressed_size, uncompressed_size) is None <==> {
            &&& ctx.extracted_files + 1 <= ctx.max_files
            &&& ctx.extracted_bytes + uncompressed_size <= ctx.max_total_bytes
            &&& (uncompressed_size >= 1048576 && compressed_size > 0 ==> uncompressed_size / compressed_size
                <= ctx.max_ratio)
            &&& (ctx.archive_size > 0 ==> (ctx.extracted_bytes + uncompressed_size) / (ctx.archive_size as int)
                <= ctx.max_ratio)
        },
{
}

} // verus!
