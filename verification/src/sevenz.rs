//! Extraction of 7z archives on the host side: its own limit counters,
//! the per-entry decisions, and the JSON lines that it reports to the
//! front end.

use vstd::prelude::*;
use crate::extract::{ActionView, EntryAction};
use crate::path::{is_safe, law_sanitized_is_safe, sanitize, sanitized};
use crate::text::{
    contains_folded, contains_seq, decimal, escape_quotes, escape_quotes_spec, fold_case, str_eq,
    u64_to_decimal,
};

verus! {

/// Limits of one 7z extraction and what has been extracted so far.
pub struct SecurityContext {
    pub max_ratio: u64,
    pub max_total_bytes: u64,
    pub max_files: usize,
    pub extracted_bytes: u64,
    pub extracted_files: usize,
    pub blocked_files: usize,
    pub archive_size: u64,
}

impl SecurityContext {
    /// The refusal code that recording an entry of this size gives, or
    /// `None` where the entry is accepted. Both counters are raised
    /// before any check.
    pub open spec fn record_verdict(self, uncompressed_size: u64) -> Option<Seq<char>> {
        let files = self.extracted_files + 1;
        let bytes = self.extracted_bytes + uncompressed_size;
        if files > self.max_files {
            Some("TOO_MANY_FILES"@)
        } else if bytes > self.max_total_bytes {
            Some("TOO_LARGE"@)
        } else if self.archive_size > 0 && bytes / self.archive_size as int > self.max_ratio {
            Some("HIGH_RATIO_ZIP_BOMB"@)
        } else {
            None
        }
    }

    /// The context after an entry of this size is recorded.
    pub open spec fn recorded(self, uncompressed_size: u64) -> SecurityContext {
        SecurityContext {
            extracted_files: (self.extracted_files + 1) as usize,
            extracted_bytes: (self.extracted_bytes + uncompressed_size) as u64,
            ..self
        }
    }

    /// Recording an entry of this size cannot overflow the counters.
    pub open spec fn can_record(self, uncompressed_size: u64) -> bool {
        &&& self.extracted_files < usize::MAX
        &&& self.extracted_bytes + uncompressed_size <= u64::MAX
    }

    /// A limit (files, total bytes, or the ratio of the bytes extracted to
    /// the archive's size) is exceeded.
    pub open spec fn exceeds_limits(self) -> bool {
        ||| self.extracted_files > self.max_files
        ||| self.extracted_bytes > self.max_total_bytes
        ||| (self.archive_size > 0 && self.extracted_bytes as int / self.archive_size as int > self.max_ratio)
    }

    /// A fresh context with the given limits and nothing extracted yet.
    pub fn new(max_ratio: u64, max_total_bytes: u64, max_files: usize, archive_size: u64) -> (r: Self)
        ensures
            r.max_ratio == max_ratio,
            r.max_total_bytes == max_total_bytes,
            r.max_files == max_files,
            r.archive_size == archive_size,
            r.extracted_bytes == 0,
            r.extracted_files == 0,
            r.blocked_files == 0,
    {
        SecurityContext {
            max_ratio,
            max_total_bytes,
            max_files,
            archive_size,
            extracted_bytes: 0,
            extracted_files: 0,
            blocked_files: 0,
        }
    }

    /// Records one more entry and checks the number of files, the total
    /// size, and the ratio of everything extracted to the archive's size.
    /// The compressed size is not used: 7z archives are solid.
    pub fn record_and_check(&mut self, _compressed_size: u64, uncompressed_size: u64) -> (r: Result<(), &'static str>)
        requires
            old(self).can_record(uncompressed_size),
        ensures
            *final(self) == old(self).recorded(uncompressed_size),
            match old(self).record_verdict(uncompressed_size) {
                None => r is Ok,
                Some(code) => r matches Err(e) && e@ == code,
            },
    {
        self.extracted_files += 1;
        self.extracted_bytes += uncompressed_size;
        if self.extracted_files > self.max_files {
            return Err("TOO_MANY_FILES");
        }
        if self.extracted_bytes > self.max_total_bytes {
            return Err("TOO_LARGE");
        }
        if self.archive_size > 0 {
            let global_ratio = self.extracted_bytes / self.archive_size;
            if global_ratio > self.max_ratio {
                return Err("HIGH_RATIO_ZIP_BOMB");
            }
        }
        Ok(())
    }

    /// Sanitize path to prevent Path Traversal and RTLO attacks.
    /// It strips dangerous components (like `..`, `/`, `C:\`) and returns a
    /// safe relative path (`law_sanitized_is_safe`).
    pub fn sanitize_path(filepath: &str) -> (r: String)
        ensures
            r@ == sanitized(filepath@),
    {
        sanitize(filepath)
    }
}

/// The verdict is exactly whether the recorded context exceeds a limit.
pub proof fn law_refused_exactly_when_over_limits(ctx: SecurityContext, uncompressed_size: u64)
    requires
        ctx.can_record(uncompressed_size),
    ensures
        ctx.record_verdict(uncompressed_size) is Some <==> ctx.recorded(uncompressed_size).exceeds_limits(),
{
}

/// Once a limit is exceeded, every later entry is refused.
pub proof fn law_exceeded_limits_stay_refused(ctx: SecurityContext, uncompressed_size: u64)
    requires
        ctx.exceeds_limits(),
        ctx.can_record(uncompressed_size),
    ensures
        ctx.record_verdict(uncompressed_size) is Some,
        ctx.recorded(uncompressed_size).exceeds_limits(),
{
    let bytes = ctx.extracted_bytes + uncompressed_size;
    if ctx.archive_size > 0 {
        assert(bytes / ctx.archive_size as int >= ctx.extracted_bytes as int / ctx.archive_size as int)
            by (nonlinear_arith)
            requires
                bytes >= ctx.extracted_bytes,
                ctx.archive_size > 0,
                ctx.extracted_bytes >= 0,
        ;
    }
}

/// One entry of a 7z archive, as the reader gives it.
pub struct SevenZEntry {
    pub name: String,
    pub is_directory: bool,
    pub has_stream: bool,
    pub size: u64,
}

/// The JSON lines to report for an entry, then what to do with it.
pub struct SevenZPlan {
    pub lines: Vec<String>,
    pub action: EntryAction,
}

/// The JSON line that reports a changed path.
pub open spec fn sanitized_line(name: Seq<char>) -> Seq<char> {
    "{\"type\": \"warning\", \"code\": \"PATH_SANITIZED\", \"file\": \""@ + escape_quotes_spec(name)
        + "\", \"details\": \"Path traversal or dangerous characters neutralized\"}"@
}

/// The JSON line that reports a refusal by the limits.
pub open spec fn limit_line(code: Seq<char>) -> Seq<char> {
    "{\"type\": \"error\", \"code\": \""@ + code + "\", \"details\": \"limit exceeded\"}"@
}

/// The JSON line that reports how far an entry is written.
pub open spec fn progress_line_spec(count: usize, file: Seq<char>, bytes: u64) -> Seq<char> {
    "{\"type\": \"progress\", \"current\": "@ + decimal(count as nat) + ", \"total\": 0, \"file\": \""@
        + escape_quotes_spec(file) + "\", \"bytes\": "@ + decimal(bytes as nat) + "}"@
}

/// The JSON line that closes a successful extraction.
pub open spec fn complete_line_spec(ctx: SecurityContext) -> Seq<char> {
    "{\"type\": \"complete\", \"files_extracted\": "@ + decimal(ctx.extracted_files as nat)
        + ", \"files_blocked\": "@ + decimal(ctx.blocked_files as nat) + ", \"total_bytes\": "@
        + decimal(ctx.extracted_bytes as nat) + "}"@
}

/// The context, JSON lines, entry count and action that a 7z entry gives.
pub open spec fn sevenz_outcome(ctx: SecurityContext, count: usize, e: SevenZEntry) -> (
    SecurityContext,
    Seq<Seq<char>>,
    usize,
    ActionView,
) {
    let name = e.name@;
    let safe = sanitized(name);
    if name.len() == 0 {
        (ctx, Seq::empty(), count, ActionView::Skip)
    } else {
        let changed = safe != name;
        let warned: Seq<Seq<char>> = if changed { seq![sanitized_line(name)] } else { Seq::empty() };
        let c1 = if changed {
            SecurityContext { blocked_files: (ctx.blocked_files + 1) as usize, ..ctx }
        } else {
            ctx
        };
        let c2 = if e.has_stream { c1.recorded(e.size) } else { c1 };
        if e.has_stream && c1.record_verdict(e.size) is Some {
            (c2, warned.push(limit_line(c1.record_verdict(e.size)->0)), count, ActionView::Abort)
        } else {
            (
                c2,
                warned,
                (count + 1) as usize,
                if e.is_directory {
                    ActionView::CreateDir(safe)
                } else if e.has_stream {
                    ActionView::WriteFile(safe)
                } else {
                    ActionView::Keep
                },
            )
        }
    }
}

/// The counters stay within their machine range while a 7z entry is
/// planned.
pub open spec fn sevenz_plannable(ctx: SecurityContext, count: usize, e: SevenZEntry) -> bool {
    let changed = sanitized(e.name@) != e.name@;
    let blocked = if changed { ctx.blocked_files + 1 } else { ctx.blocked_files as int };
    e.name@.len() > 0 ==> {
        &&& blocked <= usize::MAX
        &&& e.has_stream ==> ctx.can_record(e.size)
        &&& count < usize::MAX || (e.has_stream && ctx.record_verdict(e.size) is Some)
    }
}

/// Decides what to do with one 7z entry: an entry without a name is
/// passed over; a path that the sanitizer changes is reported and counted
/// as blocked; an entry with contents is recorded against the limits and
/// may stop the extraction; otherwise the entry is counted and created
/// (directories), written (entries with contents) or passed over.
pub fn plan_7z_entry(ctx: &mut SecurityContext, count: &mut usize, entry: &SevenZEntry) -> (p: SevenZPlan)
    requires
        sevenz_plannable(*old(ctx), *old(count), *entry),
    ensures
        *final(ctx) == sevenz_outcome(*old(ctx), *old(count), *entry).0,
        p.lines@.map_values(|l: String| l@) == sevenz_outcome(*old(ctx), *old(count), *entry).1,
        *final(count) == sevenz_outcome(*old(ctx), *old(count), *entry).2,
        p.action@ == sevenz_outcome(*old(ctx), *old(count), *entry).3,
{
    let mut lines: Vec<String> = Vec::new();
    if entry.name.as_str().is_empty() {
        assert(lines@.map_values(|l: String| l@) =~= Seq::<Seq<char>>::empty());
        return SevenZPlan { lines, action: EntryAction::Skip };
    }
    let safe = SecurityContext::sanitize_path(entry.name.as_str());
    if !str_eq(safe.as_str(), entry.name.as_str()) {
        let mut line = "{\"type\": \"warning\", \"code\": \"PATH_SANITIZED\", \"file\": \"".to_owned();
        let esc = escape_quotes(entry.name.as_str());
        line.append(esc.as_str());
        line.append("\", \"details\": \"Path traversal or dangerous characters neutralized\"}");
        lines.push(line);
        ctx.blocked_files = ctx.blocked_files + 1;
        assert(lines@.map_values(|l: String| l@) =~= seq![sanitized_line(entry.name@)]);
    } else {
        assert(lines@.map_values(|l: String| l@) =~= Seq::<Seq<char>>::empty());
    }
    let ghost warned = lines@.map_values(|l: String| l@);
    if entry.has_stream {
        match ctx.record_and_check(0, entry.size) {
            Err(code) => {
                let mut line = "{\"type\": \"error\", \"code\": \"".to_owned();
                line.append(code);
                line.append("\", \"details\": \"limit exceeded\"}");
                lines.push(line);
                assert(lines@.map_values(|l: String| l@) =~= warned.push(line@));
                return SevenZPlan { lines, action: EntryAction::Abort };
            },
            Ok(()) => {},
        }
    }
    *count = *count + 1;
    if entry.is_directory {
        SevenZPlan { lines, action: EntryAction::CreateDir(safe) }
    } else if entry.has_stream {
        SevenZPlan { lines, action: EntryAction::WriteFile(safe) }
    } else {
        SevenZPlan { lines, action: EntryAction::Keep }
    }
}

/// The JSON line that reports how far an entry is written.
pub fn progress_line(count: usize, file: &str, bytes: u64) -> (r: String)
    ensures
        r@ == progress_line_spec(count, file@, bytes),
{
    let mut r = "{\"type\": \"progress\", \"current\": ".to_owned();
    let c = u64_to_decimal(count as u64);
    r.append(c.as_str());
    r.append(", \"total\": 0, \"file\": \"");
    let f = escape_quotes(file);
    r.append(f.as_str());
    r.append("\", \"bytes\": ");
    let b = u64_to_decimal(bytes);
    r.append(b.as_str());
    r.append("}");
    r
}

/// The JSON line that closes a successful extraction.
pub fn complete_line(ctx: &SecurityContext) -> (r: String)
    ensures
        r@ == complete_line_spec(*ctx),
{
    let mut r = "{\"type\": \"complete\", \"files_extracted\": ".to_owned();
    let f = u64_to_decimal(ctx.extracted_files as u64);
    r.append(f.as_str());
    r.append(", \"files_blocked\": ");
    let b = u64_to_decimal(ctx.blocked_files as u64);
    r.append(b.as_str());
    r.append(", \"total_bytes\": ");
    let t = u64_to_decimal(ctx.extracted_bytes);
    r.append(t.as_str());
    r.append("}");
    r
}

/// The message of a reader error names a password, in any letter case.
pub open spec fn mentions_password(msg: Seq<char>) -> bool {
    contains_seq(msg.map_values(|c: char| fold_case(c)), "password"@)
}

/// The JSON line that reports an archive that could not be opened: a
/// password is asked for where the reader's message names one.
pub open spec fn open_error_line_spec(msg: Seq<char>) -> Seq<char> {
    if mentions_password(msg) {
        "{\"type\": \"error\", \"code\": \"PASSWORD_REQUIRED\", \"details\": \"Password required for encrypted archive: "@
            + escape_quotes_spec(msg) + "\"}"@
    } else {
        "{\"type\": \"error\", \"code\": \"EXTRACT_FAILED\", \"details\": \"Invalid 7z archive: "@
            + escape_quotes_spec(msg) + "\"}"@
    }
}

/// The JSON line that reports an archive that could not be opened.
pub fn open_error_line(msg: &str) -> (r: String)
    ensures
        r@ == open_error_line_spec(msg@),
{
    let mut r = if contains_folded(msg, "password") {
        "{\"type\": \"error\", \"code\": \"PASSWORD_REQUIRED\", \"details\": \"Password required for encrypted archive: ".to_owned()
    } else {
        "{\"type\": \"error\", \"code\": \"EXTRACT_FAILED\", \"details\": \"Invalid 7z archive: ".to_owned()
    };
    let esc = escape_quotes(msg);
    r.append(esc.as_str());
    r.append("\"}");
    r
}

/// The JSON line that reports an entry that could not be read: a wrong or
/// missing password is named where the reader's message names a password
/// or a checksum.
pub open spec fn read_error_line_spec(msg: Seq<char>) -> Seq<char> {
    if mentions_password(msg) || contains_seq(msg.map_values(|c: char| fold_case(c)), "checksum"@) {
        "{\"type\": \"error\", \"code\": \"PASSWORD_REQUIRED\", \"details\": \"Password required or invalid for encrypted archive.\"}"@
    } else {
        "{\"type\": \"error\", \"code\": \"EXTRACT_FAILED\", \"details\": \""@ + escape_quotes_spec(msg) + "\"}"@
    }
}

/// The JSON line that reports an entry that could not be read.
pub fn read_error_line(msg: &str) -> (r: String)
    ensures
        r@ == read_error_line_spec(msg@),
{
    if contains_folded(msg, "password") || contains_folded(msg, "checksum") {
        "{\"type\": \"error\", \"code\": \"PASSWORD_REQUIRED\", \"details\": \"Password required or invalid for encrypted archive.\"}".to_owned()
    } else {
        let mut r = "{\"type\": \"error\", \"code\": \"EXTRACT_FAILED\", \"details\": \"".to_owned();
        let esc = escape_quotes(msg);
        r.append(esc.as_str());
        r.append("\"}");
        r
    }
}

/// A 7z entry with contents is written only at the sanitized form of its
/// name (a safe relative path),
/// and only where the limits stay respected.
pub proof fn law_sevenz_writes_are_sanitized_and_accepted(ctx: SecurityContext, count: usize, e: SevenZEntry)
    requires
        sevenz_plannable(ctx, count, e),
        sevenz_outcome(ctx, count, e).3 is WriteFile,
    ensures
        sevenz_outcome(ctx, count, e).3 == ActionView::WriteFile(sanitized(e.name@)),
        !sevenz_outcome(ctx, count, e).0.exceeds_limits(),
        is_safe(sanitized(e.name@)),
{
    law_sanitized_is_safe(e.name@);
    let changed = sanitized(e.name@) != e.name@;
    let c1 = if changed {
        SecurityContext { blocked_files: (ctx.blocked_files + 1) as usize, ..ctx }
    } else {
        ctx
    };
    law_refused_exactly_when_over_limits(c1, e.size);
}

/// What recording a 7z entry answers, by each limit in turn: too many
/// files first, then a total over the limit, then everything extracted
/// over `max_ratio` times the archive's size; otherwise it is accepted.
/// Both counters rise whatever the answer.
pub proof fn law_host_record_refusals(ctx: SecurityContext, uncompressed_size: u64)
    requires
        ctx.can_record(uncompressed_size),
    ensures
        ctx.extracted_files + 1 > ctx.max_files ==> ctx.record_verdict(uncompressed_size) == Some("TOO_MANY_FILES"@),
        ctx.extracted_files + 1 <= ctx.max_files && ctx.extracted_bytes + uncompressed_size > ctx.max_total_bytes
            ==> ctx.record_verdict(uncompressed_size) == Some("TOO_LARGE"@),
        ctx.extracted_files + 1 <= ctx.max_files && ctx.extracted_bytes + uncompressed_size <= ctx.max_total_bytes
            && ctx.archive_size > 0
            && (ctx.extracted_bytes + uncompressed_size) / (ctx.archive_size as int) > ctx.max_ratio
            ==> ctx.record_verdict(uncompressed_size) == Some("HIGH_RATIO_ZIP_BOMB"@),
        ctx.record_verdict(uncompressed_size) is None <==> {
            &&& ctx.extracted_files + 1 <= ctx.max_files
            &&& ctx.extracted_bytes + uncompressed_size <= ctx.max_total_bytes
            &&& (ctx.archive_size > 0 ==> (ctx.extracted_bytes + uncompressed_size) / (ctx.archive_size as int)
                <= ctx.max_ratio)
        },
        ctx.recorded(uncompressed_size).extracted_files == ctx.extracted_files + 1,
        ctx.recorded(uncompressed_size).extracted_bytes == ctx.extracted_bytes + uncompressed_size,
{
}

/// Every 7z entry that is created or written is at the sanitized form of
/// its name, a safe relative path.
pub proof fn law_sevenz_outputs_are_sanitized(ctx: SecurityContext, count: usize, e: SevenZEntry)
    ensures
        sevenz_outcome(ctx, count, e).3 is CreateDir ==> sevenz_outcome(ctx, count, e).3 == ActionView::CreateDir(
            sanitized(e.name@),
        ),
        sevenz_outcome(ctx, count, e).3 is WriteFile ==> sevenz_outcome(ctx, count, e).3 == ActionView::WriteFile(
            sanitized(e.name@),
        ),
        is_safe(sanitized(e.name@)),
        e.is_directory && e.name@.len() > 0 && !(e.has_stream && ctx.record_verdict(e.size) is Some)
            ==> sevenz_outcome(ctx, count, e).3 == ActionView::CreateDir(sanitized(e.name@)),
{
    law_sanitized_is_safe(e.name@);
}

} // verus!
