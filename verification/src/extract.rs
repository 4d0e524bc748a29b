//! The decisions that the extraction drivers take for each archive entry:
//! which warnings and errors to report, what the entry does to the
//! extraction's counters, and whether to write it, skip it or stop.

use vstd::prelude::*;
use crate::path::{is_safe, law_sanitized_is_safe, sanitized};
use crate::protocol::{EventView, SandboxEvent, events_view};
use crate::security::SecurityContext;
use crate::text::{contains, contains_seq, decimal, ends_with, ends_with_seq, str_eq, u64_to_decimal};

verus! {

/// What the driver does with an entry once its events are reported.
#[derive(Debug, PartialEq, Eq)]
pub enum EntryAction {
    /// Go on with the next entry without writing this one.
    Skip,
    /// Stop the extraction: a limit was exceeded.
    Abort,
    /// Create the directory at this sanitized path.
    CreateDir(String),
    /// Write the entry's contents to this sanitized path.
    WriteFile(String),
    /// Nothing to write for this entry; go on.
    Keep,
}

/// An action with its path taken as a character sequence.
pub enum ActionView {
    Skip,
    Abort,
    CreateDir(Seq<char>),
    WriteFile(Seq<char>),
    Keep,
}

impl View for EntryAction {
    type V = ActionView;

    open spec fn view(&self) -> ActionView {
        match self {
            EntryAction::Skip => ActionView::Skip,
            EntryAction::Abort => ActionView::Abort,
            EntryAction::CreateDir(p) => ActionView::CreateDir(p@),
            EntryAction::WriteFile(p) => ActionView::WriteFile(p@),
            EntryAction::Keep => ActionView::Keep,
        }
    }
}

/// The events to report for an entry, then what to do with it.
pub struct EntryPlan {
    pub events: Vec<SandboxEvent>,
    pub action: EntryAction,
}

/// Bytes written between two progress reports of one entry (10 MiB).
pub const PROGRESS_STEP: u64 = 10485760;

/// A progress report is due once more than `PROGRESS_STEP` bytes were
/// written since the last one.
pub fn progress_due(written: u64, last_reported: u64) -> (r: bool)
    requires
        last_reported <= written,
    ensures
        r == (written - last_reported > PROGRESS_STEP),
{
    written - last_reported > PROGRESS_STEP
}

/// The warning for an entry whose path the sanitizer changed, if it did.
pub open spec fn sanitize_warnings(name: Seq<char>, details: Seq<char>) -> Seq<EventView> {
    if sanitized(name) != name {
        seq![EventView::Warning { code: "PATH_SANITIZED"@, file: name, details }]
    } else {
        Seq::empty()
    }
}

/// The context with one more blocked file where the path was changed.
pub open spec fn count_sanitized(ctx: SecurityContext, name: Seq<char>) -> SecurityContext {
    if sanitized(name) != name {
        SecurityContext { blocked_files: (ctx.blocked_files + 1) as u32, ..ctx }
    } else {
        ctx
    }
}

/// The context with one more blocked file.
pub open spec fn count_blocked(ctx: SecurityContext) -> SecurityContext {
    SecurityContext { blocked_files: (ctx.blocked_files + 1) as u32, ..ctx }
}

/// The details of the error reported when an entry of these sizes
/// exceeds a limit.
pub open spec fn limits_details(uncompressed_size: u64, compressed_size: u64) -> Seq<char> {
    "limits exceeded. "@ + decimal(uncompressed_size as nat) + " > "@ + decimal(compressed_size as nat)
}

fn limits_details_exec(uncompressed_size: u64, compressed_size: u64) -> (r: String)
    ensures
        r@ == limits_details(uncompressed_size, compressed_size),
{
    let mut r = "limits exceeded. ".to_owned();
    let u = u64_to_decimal(uncompressed_size);
    let c = u64_to_decimal(compressed_size);
    r.append(u.as_str());
    r.append(" > ");
    r.append(c.as_str());
    r
}

/// Reports and counts a changed path; returns the sanitized path.
fn screen_name(ctx: &mut SecurityContext, name: &String, details: &str, events: &mut Vec<SandboxEvent>) -> (safe: String)
    requires
        sanitized(name@) != name@ ==> old(ctx).blocked_files < u32::MAX,
    ensures
        safe@ == sanitized(name@),
        *final(ctx) == count_sanitized(*old(ctx), name@),
        events_view(final(events)@) == events_view(old(events)@) + sanitize_warnings(name@, details@),
{
    let safe = SecurityContext::sanitize_path(name.as_str());
    let ghost before = events@;
    if !str_eq(safe.as_str(), name.as_str()) {
        events.push(SandboxEvent::Warning {
            code: "PATH_SANITIZED".to_owned(),
            file: name.clone(),
            details: details.to_owned(),
        });
        ctx.blocked_files = ctx.blocked_files + 1;
        assert(events_view(events@) == events_view(before).push(events@.last()@));
    } else {
        assert(events_view(events@) =~= events_view(before) + Seq::<EventView>::empty());
    }
    safe
}

/// One entry of a zip archive, as the driver read it.
pub struct ZipEntry {
    /// The entry's path, where the archive gives one that stays inside
    /// the output directory.
    pub enclosed_name: Option<String>,
    /// The entry's path as stored in the archive.
    pub raw_name: String,
    pub is_symlink: bool,
    pub compressed_size: u64,
    pub uncompressed_size: u64,
}

/// The context, events and action that a zip entry gives.
pub open spec fn zip_outcome(ctx: SecurityContext, e: ZipEntry) -> (SecurityContext, Seq<EventView>, ActionView) {
    match e.enclosed_name {
        None => (
            ctx,
            seq![EventView::Warning { code: "INVALID_PATH"@, file: e.raw_name@, details: "Path is missing or invalid"@ }],
            ActionView::Skip,
        ),
        Some(n) => {
            let name = n@;
            let warned = sanitize_warnings(name, "Path traversal neutralized"@);
            let c1 = count_sanitized(ctx, name);
            if e.is_symlink {
                (
                    count_blocked(c1),
                    warned.push(EventView::Warning {
                        code: "SYMLINK_IGNORED"@,
                        file: name,
                        details: "Symlinks are zero-tolerance dropped for security"@,
                    }),
                    ActionView::Skip,
                )
            } else {
                match c1.record_verdict(e.compressed_size, e.uncompressed_size) {
                    Some(code) => (
                        c1.recorded(e.uncompressed_size),
                        warned.push(EventView::Error {
                            code,
                            details: limits_details(e.uncompressed_size, e.compressed_size),
                        }),
                        ActionView::Abort,
                    ),
                    None => (
                        c1.recorded(e.uncompressed_size),
                        warned,
                        if ends_with_seq(name, "/"@) {
                            ActionView::CreateDir(sanitized(name))
                        } else {
                            ActionView::WriteFile(sanitized(name))
                        },
                    ),
                }
            }
        },
    }
}

/// The counters stay within their machine range while a zip entry is
/// planned.
pub open spec fn zip_plannable(ctx: SecurityContext, e: ZipEntry) -> bool {
    match e.enclosed_name {
        None => true,
        Some(n) => {
            let c1 = count_sanitized(ctx, n@);
            &&& sanitized(n@) != n@ ==> ctx.blocked_files < u32::MAX
            &&& e.is_symlink ==> c1.blocked_files < u32::MAX
            &&& !e.is_symlink ==> c1.can_record(e.uncompressed_size)
        },
    }
}

/// Decides what to do with one zip entry: an entry without a safe path
/// is skipped with a warning; a path that the sanitizer changes is
/// reported and counted as blocked; a symbolic link is skipped and
/// counted as blocked; otherwise the entry is recorded against the
/// limits, and either stops the extraction or is written (as a directory
/// where its path ends with `/`) at its sanitized path.
pub fn plan_zip_entry(ctx: &mut SecurityContext, entry: &ZipEntry) -> (p: EntryPlan)
    requires
        zip_plannable(*old(ctx), *entry),
    ensures
        *final(ctx) == zip_outcome(*old(ctx), *entry).0,
        events_view(p.events@) == zip_outcome(*old(ctx), *entry).1,
        p.action@ == zip_outcome(*old(ctx), *entry).2,
{
    let mut events: Vec<SandboxEvent> = Vec::new();
    match &entry.enclosed_name {
        None => {
            events.push(SandboxEvent::Warning {
                code: "INVALID_PATH".to_owned(),
                file: entry.raw_name.clone(),
                details: "Path is missing or invalid".to_owned(),
            });
            assert(events_view(events@) =~= seq![events@[0]@]);
            EntryPlan { events, action: EntryAction::Skip }
        },
        Some(name) => {
            assert(events_view(events@) =~= Seq::<EventView>::empty());
            let safe = screen_name(ctx, name, "Path traversal neutralized", &mut events);
            let ghost warned = events_view(events@);
            if entry.is_symlink {
                events.push(SandboxEvent::Warning {
                    code: "SYMLINK_IGNORED".to_owned(),
                    file: name.clone(),
                    details: "Symlinks are zero-tolerance dropped for security".to_owned(),
                });
                ctx.blocked_files = ctx.blocked_files + 1;
                assert(events_view(events@) == warned.push(events@.last()@));
                return EntryPlan { events, action: EntryAction::Skip };
            }
            match ctx.record_and_check(entry.compressed_size, entry.uncompressed_size) {
                Err(code) => {
                    events.push(SandboxEvent::Error {
                        code: code.to_owned(),
                        details: limits_details_exec(entry.uncompressed_size, entry.compressed_size),
                    });
                    assert(events_view(events@) == warned.push(events@.last()@));
                    EntryPlan { events, action: EntryAction::Abort }
                },
                Ok(()) => {
                    if ends_with(name.as_str(), "/") {
                        EntryPlan { events, action: EntryAction::CreateDir(safe) }
                    } else {
                        EntryPlan { events, action: EntryAction::WriteFile(safe) }
                    }
                },
            }
        },
    }
}

/// The kind of a tar entry, as its header gives it.
#[derive(Debug, Clone, Copy, PartialEq, Eq, Structural)]
pub enum TarKind {
    File,
    Directory,
    Symlink,
    HardLink,
    Other,
}

/// One entry of a tar archive, as the driver read it.
pub struct TarEntry {
    pub name: String,
    pub kind: TarKind,
    /// The size in the header, where it could be read.
    pub size: Option<u64>,
}

/// The size that a tar entry is recorded with: the header's, or 0.
pub open spec fn tar_size(e: TarEntry) -> u64 {
    match e.size {
        Some(s) => s,
        None => 0,
    }
}

/// The compressed size that a tar entry is recorded with: a tar stream
/// gives none per entry, so the entry's own size, and at least 1, stands
/// for it (the entry's own ratio then never exceeds 1).
pub open spec fn tar_compressed_size(e: TarEntry) -> u64 {
    if tar_size(e) >= 1 { tar_size(e) } else { 1 }
}

/// The context, events and action that a tar entry gives.
pub open spec fn tar_outcome(ctx: SecurityContext, e: TarEntry) -> (SecurityContext, Seq<EventView>, ActionView) {
    let name = e.name@;
    let warned = sanitize_warnings(name, "Path traversal neutralized"@);
    let c1 = count_sanitized(ctx, name);
    if e.kind == TarKind::Symlink || e.kind == TarKind::HardLink {
        (
            count_blocked(c1),
            warned.push(EventView::Warning { code: "SYMLINK_IGNORED"@, file: name, details: "Symlinks are prohibited"@ }),
            ActionView::Skip,
        )
    } else {
        match c1.record_verdict(tar_compressed_size(e), tar_size(e)) {
            Some(code) => (
                c1.recorded(tar_size(e)),
                warned.push(EventView::Error { code, details: "limit exceeded"@ }),
                ActionView::Abort,
            ),
            None => (
                c1.recorded(tar_size(e)),
                warned,
                if e.kind == TarKind::Directory {
                    ActionView::CreateDir(sanitized(name))
                } else if e.kind == TarKind::File {
                    ActionView::WriteFile(sanitized(name))
                } else {
                    ActionView::Keep
                },
            ),
        }
    }
}

/// The counters stay within their machine range while a tar entry is
/// planned.
pub open spec fn tar_plannable(ctx: SecurityContext, e: TarEntry) -> bool {
    let c1 = count_sanitized(ctx, e.name@);
    &&& sanitized(e.name@) != e.name@ ==> ctx.blocked_files < u32::MAX
    &&& (e.kind == TarKind::Symlink || e.kind == TarKind::HardLink) ==> c1.blocked_files < u32::MAX
    &&& !(e.kind == TarKind::Symlink || e.kind == TarKind::HardLink) ==> c1.can_record(tar_size(e))
}

/// Decides what to do with one tar entry: a path that the sanitizer
/// changes is reported and counted as blocked; links (symbolic or hard)
/// are skipped and counted as blocked; otherwise the entry is recorded
/// against the limits and either stops the extraction or is created
/// (directories), written (regular files) or passed over (other kinds).
pub fn plan_tar_entry(ctx: &mut SecurityContext, entry: &TarEntry) -> (p: EntryPlan)
    requires
        tar_plannable(*old(ctx), *entry),
    ensures
        *final(ctx) == tar_outcome(*old(ctx), *entry).0,
        events_view(p.events@) == tar_outcome(*old(ctx), *entry).1,
        p.action@ == tar_outcome(*old(ctx), *entry).2,
{
    let mut events: Vec<SandboxEvent> = Vec::new();
    assert(events_view(events@) =~= Seq::<EventView>::empty());
    let safe = screen_name(ctx, &entry.name, "Path traversal neutralized", &mut events);
    let ghost warned = events_view(events@);
    if entry.kind == TarKind::Symlink || entry.kind == TarKind::HardLink {
        events.push(SandboxEvent::Warning {
            code: "SYMLINK_IGNORED".to_owned(),
            file: entry.name.clone(),
            details: "Symlinks are prohibited".to_owned(),
        });
        ctx.blocked_files = ctx.blocked_files + 1;
        assert(events_view(events@) == warned.push(events@.last()@));
        return EntryPlan { events, action: EntryAction::Skip };
    }
    let size = match entry.size {
        Some(s) => s,
        None => 0,
    };
    let compressed = if size >= 1 { size } else { 1 };
    match ctx.record_and_check(compressed, size) {
        Err(code) => {
            events.push(SandboxEvent::Error { code: code.to_owned(), details: "limit exceeded".to_owned() });
            assert(events_view(events@) == warned.push(events@.last()@));
            EntryPlan { events, action: EntryAction::Abort }
        },
        Ok(()) => {
            if entry.kind == TarKind::Directory {
                EntryPlan { events, action: EntryAction::CreateDir(safe) }
            } else if entry.kind == TarKind::File {
                EntryPlan { events, action: EntryAction::WriteFile(safe) }
            } else {
                EntryPlan { events, action: EntryAction::Keep }
            }
        },
    }
}

/// One file of a rar archive, which the rar reader has already written
/// out at its stored path.
pub struct RarEntry {
    pub name: String,
    pub unpacked_size: u64,
    pub data_area_size: u64,
}

/// The events to report for a rar file, where to move it, and whether to
/// stop.
pub struct RarEntryPlan {
    pub events: Vec<SandboxEvent>,
    /// The sanitized path to move the written file to, where its stored
    /// path was unsafe.
    pub relocate_to: Option<String>,
    pub abort: bool,
}

/// The context, events, new path and stop flag that a rar file gives,
/// reported as the `current`-th file of `total`.
pub open spec fn rar_outcome(ctx: SecurityContext, e: RarEntry, current: u32, total: u32) -> (
    SecurityContext,
    Seq<EventView>,
    Option<Seq<char>>,
    bool,
) {
    let name = e.name@;
    let safe = sanitized(name);
    let warned = sanitize_warnings(name, "Blocked unsafe path or RTLO detected in RAR, neutralized"@);
    let c1 = count_sanitized(ctx, name);
    let relocate = if safe != name { Some(safe) } else { None };
    match c1.record_verdict(e.data_area_size, e.unpacked_size) {
        Some(code) => (
            c1.recorded(e.unpacked_size),
            warned.push(EventView::Error { code, details: limits_details(e.unpacked_size, e.data_area_size) }),
            relocate,
            true,
        ),
        None => (
            c1.recorded(e.unpacked_size),
            warned.push(EventView::Progress { current, total, file: safe, bytes: e.unpacked_size }),
            relocate,
            false,
        ),
    }
}

/// The counters stay within their machine range while a rar file is
/// planned.
pub open spec fn rar_plannable(ctx: SecurityContext, e: RarEntry) -> bool {
    &&& sanitized(e.name@) != e.name@ ==> ctx.blocked_files < u32::MAX
    &&& count_sanitized(ctx, e.name@).can_record(e.unpacked_size)
}

/// Decides what to do with one rar file: a stored path that the
/// sanitizer changes is reported, counted as blocked and the file moved
/// to its sanitized path; the file is recorded against the limits (its
/// data area standing for its compressed size) and either stops the
/// extraction or is reported as progress.
pub fn plan_rar_entry(ctx: &mut SecurityContext, entry: &RarEntry, current: u32, total: u32) -> (p: RarEntryPlan)
    requires
        rar_plannable(*old(ctx), *entry),
    ensures
        *final(ctx) == rar_outcome(*old(ctx), *entry, current, total).0,
        events_view(p.events@) == rar_outcome(*old(ctx), *entry, current, total).1,
        p.relocate_to matches Some(t) ==> rar_outcome(*old(ctx), *entry, current, total).2 == Some(t@),
        p.relocate_to is None ==> rar_outcome(*old(ctx), *entry, current, total).2 is None,
        p.abort == rar_outcome(*old(ctx), *entry, current, total).3,
{
    let mut events: Vec<SandboxEvent> = Vec::new();
    assert(events_view(events@) =~= Seq::<EventView>::empty());
    let safe = screen_name(
        ctx,
        &entry.name,
        "Blocked unsafe path or RTLO detected in RAR, neutralized",
        &mut events,
    );
    let ghost warned = events_view(events@);
    let relocate_to = if str_eq(safe.as_str(), entry.name.as_str()) {
        None
    } else {
        Some(safe.clone())
    };
    match ctx.record_and_check(entry.data_area_size, entry.unpacked_size) {
        Err(code) => {
            events.push(SandboxEvent::Error {
                code: code.to_owned(),
                details: limits_details_exec(entry.unpacked_size, entry.data_area_size),
            });
            assert(events_view(events@) == warned.push(events@.last()@));
            RarEntryPlan { events, relocate_to, abort: true }
        },
        Ok(()) => {
            events.push(SandboxEvent::Progress { current, total, file: safe, bytes: entry.unpacked_size });
            assert(events_view(events@) == warned.push(events@.last()@));
            RarEntryPlan { events, relocate_to, abort: false }
        },
    }
}

/// A zip entry that could not be read asks for a password where the
/// reader's message says so.
pub fn zip_needs_password(msg: &str) -> (r: bool)
    ensures
        r == (contains_seq(msg@, "Password required"@) || contains_seq(msg@, "encrypted"@)),
{
    contains(msg, "Password required") || contains(msg, "encrypted")
}

/// A rar archive that could not be extracted asks for a (right) password
/// where the reader's message names a password or a checksum.
pub fn rar_needs_password(msg: &str) -> (r: bool)
    ensures
        r == (contains_seq(msg@, "Password"@) || contains_seq(msg@, "Checksum"@)),
{
    contains(msg, "Password") || contains(msg, "Checksum")
}

/// The output directory as the rar reader wants it: ending with `/`.
pub fn rar_output_dir(dir: &str) -> (r: String)
    ensures
        r@ == if ends_with_seq(dir@, "/"@) { dir@ } else { dir@ + "/"@ },
{
    let mut r = dir.to_owned();
    if !ends_with(dir, "/") {
        r.append("/");
    }
    r
}

/// A zip entry that is a symbolic link is never written, and neither is
/// an entry without a safe path.
pub proof fn law_zip_links_never_written(ctx: SecurityContext, e: ZipEntry)
    requires
        e.is_symlink || e.enclosed_name is None,
    ensures
        zip_outcome(ctx, e).2 == ActionView::Skip,
{
}

/// A tar entry that is a symbolic or hard link is never written.
pub proof fn law_tar_links_never_written(ctx: SecurityContext, e: TarEntry)
    requires
        e.kind == TarKind::Symlink || e.kind == TarKind::HardLink,
    ensures
        tar_outcome(ctx, e).2 == ActionView::Skip,
{
}

/// A zip entry is written only at the sanitized form of its path (a safe
/// relative path), and
/// only once the limits accepted it, so that the extraction stays within
/// them.
pub proof fn law_zip_writes_are_sanitized_and_accepted(ctx: SecurityContext, e: ZipEntry)
    requires
        zip_outcome(ctx, e).2 is CreateDir || zip_outcome(ctx, e).2 is WriteFile,
    ensures
        e.enclosed_name is Some,
        zip_outcome(ctx, e).2 == ActionView::CreateDir(sanitized(e.enclosed_name->0@))
            || zip_outcome(ctx, e).2 == ActionView::WriteFile(sanitized(e.enclosed_name->0@)),
        !zip_outcome(ctx, e).0.exceeds_totals(),
        is_safe(sanitized(e.enclosed_name->0@)),
{
    law_sanitized_is_safe(e.enclosed_name->0@);
    let c1 = count_sanitized(ctx, e.enclosed_name->0@);
    crate::security::law_accepted_entry_within_limits(c1, e.compressed_size, e.uncompressed_size);
}

/// A tar entry is written only at the sanitized form of its path (a safe
/// relative path), and
/// only once the limits accepted it.
pub proof fn law_tar_writes_are_sanitized_and_accepted(ctx: SecurityContext, e: TarEntry)
    requires
        tar_outcome(ctx, e).2 is CreateDir || tar_outcome(ctx, e).2 is WriteFile,
    ensures
        tar_outcome(ctx, e).2 == ActionView::CreateDir(sanitized(e.name@))
            || tar_outcome(ctx, e).2 == ActionView::WriteFile(sanitized(e.name@)),
        !tar_outcome(ctx, e).0.exceeds_totals(),
        is_safe(sanitized(e.name@)),
{
    law_sanitized_is_safe(e.name@);
    let c1 = count_sanitized(ctx, e.name@);
    crate::security::law_accepted_entry_within_limits(c1, tar_compressed_size(e), tar_size(e));
}

/// A rar file whose stored path the sanitizer changes is moved to the
/// sanitized form (a safe relative path); a file that is not moved was already at it; a
/// file that the limits accept leaves them respected.
pub proof fn law_rar_files_end_sanitized(ctx: SecurityContext, e: RarEntry, current: u32, total: u32)
    ensures
        rar_outcome(ctx, e, current, total).2 is Some ==> rar_outcome(ctx, e, current, total).2
            == Some(sanitized(e.name@)),
        rar_outcome(ctx, e, current, total).2 is None ==> sanitized(e.name@) == e.name@,
        !rar_outcome(ctx, e, current, total).3 ==> !rar_outcome(ctx, e, current, total).0.exceeds_totals(),
        is_safe(sanitized(e.name@)),
{
    law_sanitized_is_safe(e.name@);
    let c1 = count_sanitized(ctx, e.name@);
    if c1.record_verdict(e.data_area_size, e.unpacked_size) is None {
        crate::security::law_accepted_entry_within_limits(c1, e.data_area_size, e.unpacked_size);
    }
}

/// An entry whose path the sanitizer changes is reported once and counted
/// once as blocked (zip entries with a safe path).
pub proof fn law_zip_changed_path_reported(ctx: SecurityContext, e: ZipEntry)
    requires
        e.enclosed_name is Some,
        sanitized(e.enclosed_name->0@) != e.enclosed_name->0@,
        zip_plannable(ctx, e),
    ensures
        zip_outcome(ctx, e).1[0] == (EventView::Warning {
            code: "PATH_SANITIZED"@,
            file: e.enclosed_name->0@,
            details: "Path traversal neutralized"@,
        }),
        zip_outcome(ctx, e).0.blocked_files >= ctx.blocked_files + 1,
{
}

/// Whether an event is a warning about an entry counted as blocked.
pub open spec fn is_blocking_warning(e: EventView) -> bool {
    e matches EventView::Warning { code, .. } && (code == "PATH_SANITIZED"@ || code == "SYMLINK_IGNORED"@)
}

/// How many of the events are warnings about entries counted as blocked.
pub open spec fn blocking_warnings(events: Seq<EventView>) -> nat
    decreases events.len(),
{
    if events.len() == 0 {
        0
    } else {
        blocking_warnings(events.drop_last()) + if is_blocking_warning(events.last()) { 1nat } else { 0nat }
    }
}

proof fn lemma_blocking_literals()
    ensures
        "PATH_SANITIZED"@ != "SYMLINK_IGNORED"@,
        "INVALID_PATH"@ != "PATH_SANITIZED"@,
        "INVALID_PATH"@ != "SYMLINK_IGNORED"@,
{
    reveal_strlit("PATH_SANITIZED");
    reveal_strlit("SYMLINK_IGNORED");
    reveal_strlit("INVALID_PATH");
    assert("PATH_SANITIZED"@[0] != "SYMLINK_IGNORED"@[0]);
    assert("INVALID_PATH"@[0] != "PATH_SANITIZED"@[0]);
    assert("INVALID_PATH"@[0] != "SYMLINK_IGNORED"@[0]);
}

/// The blocked-file counter of a zip extraction rises by exactly the number
/// of warnings about blocked entries that the entry reports, so the final
/// count equals the warnings the host received.
pub proof fn law_zip_blocked_counts_warnings(ctx: SecurityContext, e: ZipEntry)
    requires
        ctx.blocked_files + 2 <= u32::MAX,
    ensures
        zip_outcome(ctx, e).0.blocked_files == ctx.blocked_files + blocking_warnings(zip_outcome(ctx, e).1),
{
    lemma_blocking_literals();
    let out = zip_outcome(ctx, e).1;
    reveal_with_fuel(blocking_warnings, 3);
    match e.enclosed_name {
        None => {
            assert(out.drop_last() =~= Seq::<EventView>::empty());
        },
        Some(n) => {
            let w = sanitize_warnings(n@, "Path traversal neutralized"@);
            assert(w.len() == 0 ==> w =~= Seq::<EventView>::empty());
            if w.len() > 0 {
                assert(w.drop_last() =~= Seq::<EventView>::empty());
            }
            if out.len() > w.len() {
                assert(out.drop_last() =~= w);
            } else {
                assert(out =~= w);
            }
        },
    }
}

/// The blocked-file counter of a tar extraction rises by exactly the number
/// of warnings about blocked entries that the entry reports.
pub proof fn law_tar_blocked_counts_warnings(ctx: SecurityContext, e: TarEntry)
    requires
        ctx.blocked_files + 2 <= u32::MAX,
    ensures
        tar_outcome(ctx, e).0.blocked_files == ctx.blocked_files + blocking_warnings(tar_outcome(ctx, e).1),
{
    lemma_blocking_literals();
    reveal_strlit("limit exceeded");
    let out = tar_outcome(ctx, e).1;
    reveal_with_fuel(blocking_warnings, 3);
    let w = sanitize_warnings(e.name@, "Path traversal neutralized"@);
    if w.len() > 0 {
        assert(w.drop_last() =~= Seq::<EventView>::empty());
    }
    if out.len() > w.len() {
        assert(out.drop_last() =~= w);
    } else {
        assert(out =~= w);
    }
}

proof fn lemma_blocking_concat(a: Seq<EventView>, b: Seq<EventView>)
    ensures
        blocking_warnings(a + b) == blocking_warnings(a) + blocking_warnings(b),
    decreases b.len(),
{
    if b.len() == 0 {
        assert(a + b =~= a);
    } else {
        lemma_blocking_concat(a, b.drop_last());
        assert((a + b).drop_last() =~= a + b.drop_last());
        assert((a + b).last() == b.last());
    }
}

/// A zip entry that reaches the limits: it has a safe path and is no link.
pub open spec fn zip_counted(e: ZipEntry) -> bool {
    e.enclosed_name is Some && !e.is_symlink
}

/// How many of the zip entries reach the limits.
pub open spec fn zip_files(es: Seq<ZipEntry>) -> nat
    decreases es.len(),
{
    if es.len() == 0 {
        0
    } else {
        zip_files(es.drop_last()) + if zip_counted(es.last()) { 1nat } else { 0nat }
    }
}

/// The uncompressed bytes of the zip entries that reach the limits.
pub open spec fn zip_bytes(es: Seq<ZipEntry>) -> int
    decreases es.len(),
{
    if es.len() == 0 {
        0
    } else {
        zip_bytes(es.drop_last()) + if zip_counted(es.last()) { es.last().uncompressed_size as int } else { 0 }
    }
}

/// A zip extraction that plans every entry in turn: the context, all the
/// events reported, and whether it stopped (after which no entry is
/// planned).
pub open spec fn zip_run(ctx: SecurityContext, es: Seq<ZipEntry>) -> (SecurityContext, Seq<EventView>, bool)
    decreases es.len(),
{
    if es.len() == 0 {
        (ctx, Seq::empty(), false)
    } else {
        let prev = zip_run(ctx, es.drop_last());
        if prev.2 {
            prev
        } else {
            let o = zip_outcome(prev.0, es.last());
            (o.0, prev.1 + o.1, o.2 == ActionView::Abort)
        }
    }
}

proof fn lemma_zip_run_stops(ctx: SecurityContext, es: Seq<ZipEntry>)
    requires
        es.len() > 0,
        !zip_run(ctx, es).2,
    ensures
        !zip_run(ctx, es.drop_last()).2,
{
}

/// A zip extraction from a fresh context that runs to its end reports in
/// its closing event exactly what it counted: every entry that reached the
/// limits, their uncompressed bytes, and as many blocked files as the
/// warnings about blocked entries; and it ends within the limits.
pub proof fn law_zip_run_accounts_exactly(ctx: SecurityContext, es: Seq<ZipEntry>)
    requires
        ctx.extracted_files == 0,
        ctx.extracted_bytes == 0,
        ctx.blocked_files == 0,
        2 * es.len() + 2 <= u32::MAX,
        !zip_run(ctx, es).2,
    ensures
        zip_run(ctx, es).0.extracted_files == zip_files(es),
        zip_run(ctx, es).0.extracted_bytes == zip_bytes(es),
        zip_run(ctx, es).0.blocked_files == blocking_warnings(zip_run(ctx, es).1),
        zip_run(ctx, es).0.blocked_files <= 2 * es.len(),
        !zip_run(ctx, es).0.exceeds_totals(),
        zip_run(ctx, es).0.max_files == ctx.max_files,
        zip_run(ctx, es).0.max_total_bytes == ctx.max_total_bytes,
        zip_run(ctx, es).0.max_ratio == ctx.max_ratio,
        zip_run(ctx, es).0.archive_size == ctx.archive_size,
    decreases es.len(),
{
    if es.len() == 0 {
        if ctx.archive_size > 0 {
            assert(ctx.extracted_bytes as int / ctx.archive_size as int == 0) by (nonlinear_arith)
                requires
                    ctx.extracted_bytes == 0,
                    ctx.archive_size > 0,
            ;
        }
        assert(blocking_warnings(Seq::<EventView>::empty()) == 0);
    } else {
        let d = es.drop_last();
        lemma_zip_run_stops(ctx, es);
        law_zip_run_accounts_exactly(ctx, d);
        let prev = zip_run(ctx, d);
        let c = prev.0;
        let e = es.last();
        let o = zip_outcome(c, e);
        lemma_blocking_concat(prev.1, o.1);
        law_zip_blocked_counts_warnings(c, e);
        if zip_counted(e) {
            let c1 = count_sanitized(c, e.enclosed_name->0@);
            assert(c1.record_verdict(e.compressed_size, e.uncompressed_size) is None);
            crate::security::law_accepted_entry_within_limits(c1, e.compressed_size, e.uncompressed_size);
        }
    }
}

/// A tar entry that reaches the limits: it is no link.
pub open spec fn tar_counted(e: TarEntry) -> bool {
    !(e.kind == TarKind::Symlink || e.kind == TarKind::HardLink)
}

/// How many of the tar entries reach the limits.
pub open spec fn tar_files(es: Seq<TarEntry>) -> nat
    decreases es.len(),
{
    if es.len() == 0 {
        0
    } else {
        tar_files(es.drop_last()) + if tar_counted(es.last()) { 1nat } else { 0nat }
    }
}

/// The sizes of the tar entries that reach the limits.
pub open spec fn tar_bytes(es: Seq<TarEntry>) -> int
    decreases es.len(),
{
    if es.len() == 0 {
        0
    } else {
        tar_bytes(es.drop_last()) + if tar_counted(es.last()) { tar_size(es.last()) as int } else { 0 }
    }
}

/// A tar extraction that plans every entry in turn: the context, all the
/// events reported, and whether it stopped.
pub open spec fn tar_run(ctx: SecurityContext, es: Seq<TarEntry>) -> (SecurityContext, Seq<EventView>, bool)
    decreases es.len(),
{
    if es.len() == 0 {
        (ctx, Seq::empty(), false)
    } else {
        let prev = tar_run(ctx, es.drop_last());
        if prev.2 {
            prev
        } else {
            let o = tar_outcome(prev.0, es.last());
            (o.0, prev.1 + o.1, o.2 == ActionView::Abort)
        }
    }
}

/// A tar extraction from a fresh context that runs to its end reports in
/// its closing event exactly what it counted: every entry that is no link,
/// their sizes, and as many blocked files as the warnings about blocked
/// entries; and it ends within the limits.
pub proof fn law_tar_run_accounts_exactly(ctx: SecurityContext, es: Seq<TarEntry>)
    requires
        ctx.extracted_files == 0,
        ctx.extracted_bytes == 0,
        ctx.blocked_files == 0,
        2 * es.len() + 2 <= u32::MAX,
        !tar_run(ctx, es).2,
    ensures
        tar_run(ctx, es).0.extracted_files == tar_files(es),
        tar_run(ctx, es).0.extracted_bytes == tar_bytes(es),
        tar_run(ctx, es).0.blocked_files == blocking_warnings(tar_run(ctx, es).1),
        tar_run(ctx, es).0.blocked_files <= 2 * es.len(),
        !tar_run(ctx, es).0.exceeds_totals(),
        tar_run(ctx, es).0.max_files == ctx.max_files,
        tar_run(ctx, es).0.max_total_bytes == ctx.max_total_bytes,
        tar_run(ctx, es).0.max_ratio == ctx.max_ratio,
        tar_run(ctx, es).0.archive_size == ctx.archive_size,
    decreases es.len(),
{
    if es.len() == 0 {
        if ctx.archive_size > 0 {
            assert(ctx.extracted_bytes as int / ctx.archive_size as int == 0) by (nonlinear_arith)
                requires
                    ctx.extracted_bytes == 0,
                    ctx.archive_size > 0,
            ;
        }
        assert(blocking_warnings(Seq::<EventView>::empty()) == 0);
    } else {
        let d = es.drop_last();
        assert(!tar_run(ctx, d).2);
        law_tar_run_accounts_exactly(ctx, d);
        let prev = tar_run(ctx, d);
        let c = prev.0;
        let e = es.last();
        let o = tar_outcome(c, e);
        lemma_blocking_concat(prev.1, o.1);
        law_tar_blocked_counts_warnings(c, e);
        if tar_counted(e) {
            let c1 = count_sanitized(c, e.name@);
            assert(c1.record_verdict(tar_compressed_size(e), tar_size(e)) is None);
            crate::security::law_accepted_entry_within_limits(c1, tar_compressed_size(e), tar_size(e));
        }
    }
}

/// The sum of the unpacked sizes of the rar files.
pub open spec fn rar_bytes(es: Seq<RarEntry>) -> int
    decreases es.len(),
{
    if es.len() == 0 {
        0
    } else {
        rar_bytes(es.drop_last()) + es.last().unpacked_size
    }
}

/// A rar extraction that plans every file in turn (file `i` reported as
/// number `i + 1` of `total`): the context, all the events reported, and
/// whether it stopped.
pub open spec fn rar_run(ctx: SecurityContext, es: Seq<RarEntry>, total: u32) -> (SecurityContext, Seq<EventView>, bool)
    decreases es.len(),
{
    if es.len() == 0 {
        (ctx, Seq::empty(), false)
    } else {
        let prev = rar_run(ctx, es.drop_last(), total);
        if prev.2 {
            prev
        } else {
            let o = rar_outcome(prev.0, es.last(), es.len() as u32, total);
            (o.0, prev.1 + o.1, o.3)
        }
    }
}

proof fn lemma_rar_blocked_counts_warnings(ctx: SecurityContext, e: RarEntry, current: u32, total: u32)
    requires
        ctx.blocked_files + 1 <= u32::MAX,
    ensures
        rar_outcome(ctx, e, current, total).0.blocked_files == ctx.blocked_files + blocking_warnings(
            rar_outcome(ctx, e, current, total).1,
        ),
{
    lemma_blocking_literals();
    reveal_with_fuel(blocking_warnings, 3);
    let out = rar_outcome(ctx, e, current, total).1;
    let w = sanitize_warnings(e.name@, "Blocked unsafe path or RTLO detected in RAR, neutralized"@);
    if w.len() > 0 {
        assert(w.drop_last() =~= Seq::<EventView>::empty());
    }
    assert(out.drop_last() =~= w);
}

/// A rar extraction from a fresh context that runs to its end counts every
/// file and its unpacked bytes, as many blocked files as the warnings about
/// changed paths, and ends within the limits.
pub proof fn law_rar_run_accounts_exactly(ctx: SecurityContext, es: Seq<RarEntry>, total: u32)
    requires
        ctx.extracted_files == 0,
        ctx.extracted_bytes == 0,
        ctx.blocked_files == 0,
        es.len() + 1 <= u32::MAX,
        !rar_run(ctx, es, total).2,
    ensures
        rar_run(ctx, es, total).0.extracted_files == es.len(),
        rar_run(ctx, es, total).0.extracted_bytes == rar_bytes(es),
        rar_run(ctx, es, total).0.blocked_files == blocking_warnings(rar_run(ctx, es, total).1),
        rar_run(ctx, es, total).0.blocked_files <= es.len(),
        !rar_run(ctx, es, total).0.exceeds_totals(),
        rar_run(ctx, es, total).0.max_files == ctx.max_files,
        rar_run(ctx, es, total).0.max_total_bytes == ctx.max_total_bytes,
        rar_run(ctx, es, total).0.max_ratio == ctx.max_ratio,
        rar_run(ctx, es, total).0.archive_size == ctx.archive_size,
    decreases es.len(),
{
    if es.len() == 0 {
        if ctx.archive_size > 0 {
            assert(ctx.extracted_bytes as int / ctx.archive_size as int == 0) by (nonlinear_arith)
                requires
                    ctx.extracted_bytes == 0,
                    ctx.archive_size > 0,
            ;
        }
        assert(blocking_warnings(Seq::<EventView>::empty()) == 0);
    } else {
        let d = es.drop_last();
        assert(!rar_run(ctx, d, total).2);
        law_rar_run_accounts_exactly(ctx, d, total);
        let prev = rar_run(ctx, d, total);
        let c = prev.0;
        let e = es.last();
        let o = rar_outcome(c, e, es.len() as u32, total);
        lemma_blocking_concat(prev.1, o.1);
        lemma_rar_blocked_counts_warnings(c, e, es.len() as u32, total);
        let c1 = count_sanitized(c, e.name@);
        assert(c1.record_verdict(e.data_area_size, e.unpacked_size) is None);
        crate::security::law_accepted_entry_within_limits(c1, e.data_area_size, e.unpacked_size);
    }
}

/// An accepted zip entry is a directory exactly when its name ends with
/// `/`: it is then created, and otherwise written as a file (an empty one
/// too), at its sanitized path; the sizes play no part in the choice.
pub proof fn law_zip_directory_iff_trailing_slash(ctx: SecurityContext, e: ZipEntry)
    requires
        e.enclosed_name is Some,
        !e.is_symlink,
        count_sanitized(ctx, e.enclosed_name->0@).record_verdict(e.compressed_size, e.uncompressed_size) is None,
    ensures
        ({
            let n = e.enclosed_name->0@;
            &&& n.len() > 0 && n.last() == '/' ==> zip_outcome(ctx, e).2 == ActionView::CreateDir(sanitized(n))
            &&& !(n.len() > 0 && n.last() == '/') ==> zip_outcome(ctx, e).2 == ActionView::WriteFile(sanitized(n))
            &&& zip_outcome(ctx, e).1 == sanitize_warnings(n, "Path traversal neutralized"@)
        }),
{
    reveal_strlit("/");
    let n = e.enclosed_name->0@;
    if n.len() > 0 && n.last() == '/' {
        assert(n.subrange(n.len() - 1, n.len() as int) =~= "/"@);
    } else if n.len() > 0 {
        assert(n.subrange(n.len() - 1, n.len() as int)[0] != "/"@[0]);
    }
}

/// A regular tar entry within the file-count, total-size and global-ratio
/// limits is always accepted and written at its sanitized path, whatever
/// its size (its own ratio is never above 1, so only a zero ratio limit
/// can refuse it); a directory is likewise created.
pub proof fn law_tar_regular_entries_accepted(ctx: SecurityContext, e: TarEntry)
    requires
        e.kind == TarKind::File || e.kind == TarKind::Directory,
        ctx.max_ratio >= 1,
        ctx.extracted_files + 1 <= ctx.max_files,
        ctx.extracted_bytes + tar_size(e) <= ctx.max_total_bytes,
        ctx.archive_size > 0 ==> (ctx.extracted_bytes + tar_size(e)) / (ctx.archive_size as int) <= ctx.max_ratio,
    ensures
        e.kind == TarKind::File ==> tar_outcome(ctx, e).2 == ActionView::WriteFile(sanitized(e.name@)),
        e.kind == TarKind::Directory ==> tar_outcome(ctx, e).2 == ActionView::CreateDir(sanitized(e.name@)),
        tar_outcome(ctx, e).1 == sanitize_warnings(e.name@, "Path traversal neutralized"@),
        tar_outcome(ctx, e).0.extracted_files == ctx.extracted_files + 1,
        tar_outcome(ctx, e).0.extracted_bytes == ctx.extracted_bytes + tar_size(e),
{
    let u = tar_size(e);
    let c = tar_compressed_size(e);
    if u >= 1048576 {
        assert(c == u);
        assert(u / c == 1) by (nonlinear_arith)
            requires
                c == u,
                u > 0,
        ;
    }
    crate::security::law_record_refusals(count_sanitized(ctx, e.name@), c, u);
}

/// What a zip entry reports, case by case: an entry without a safe path
/// is skipped with an `INVALID_PATH` warning naming its stored path and
/// changes nothing; a link is skipped with a `SYMLINK_IGNORED` warning and
/// is not counted as extracted; an entry that the limits refuse stops the
/// extraction with an error naming the refusal and the entry's
/// uncompressed and compressed sizes, in that order; an accepted entry is
/// counted with its uncompressed bytes.
pub proof fn law_zip_reports(ctx: SecurityContext, e: ZipEntry)
    requires
        ctx.extracted_files < u32::MAX,
    ensures
        e.enclosed_name is None ==> zip_outcome(ctx, e) == (
            ctx,
            seq![EventView::Warning { code: "INVALID_PATH"@, file: e.raw_name@, details: "Path is missing or invalid"@ }],
            ActionView::Skip,
        ),
        e.enclosed_name is Some && e.is_symlink ==> {
            &&& zip_outcome(ctx, e).2 == ActionView::Skip
            &&& zip_outcome(ctx, e).1.last() == (EventView::Warning {
                code: "SYMLINK_IGNORED"@,
                file: e.enclosed_name->0@,
                details: "Symlinks are zero-tolerance dropped for security"@,
            })
            &&& zip_outcome(ctx, e).0.extracted_files == ctx.extracted_files
            &&& zip_outcome(ctx, e).0.extracted_bytes == ctx.extracted_bytes
        },
        e.enclosed_name is Some && !e.is_symlink ==> {
            let v = ctx.record_verdict(e.compressed_size, e.uncompressed_size);
            &&& zip_outcome(ctx, e).0.extracted_files == ctx.extracted_files + 1
            &&& v is Some ==> zip_outcome(ctx, e).2 == ActionView::Abort && zip_outcome(ctx, e).1.last() == (
            EventView::Error {
                code: v->0,
                details: "limits exceeded. "@ + decimal(e.uncompressed_size as nat) + " > "@ + decimal(
                    e.compressed_size as nat,
                ),
            })
            &&& v is None ==> zip_outcome(ctx, e).0.extracted_bytes == ctx.extracted_bytes + e.uncompressed_size
        },
{
}

/// What a tar entry reports, case by case: a link is skipped with a
/// `SYMLINK_IGNORED` warning and not counted as extracted; an entry that
/// the limits refuse stops the extraction with an error naming the
/// refusal; every other entry is counted with its header size (0 where
/// the header gives none); only regular files are written.
pub proof fn law_tar_reports(ctx: SecurityContext, e: TarEntry)
    requires
        ctx.extracted_files < u32::MAX,
    ensures
        (e.kind == TarKind::Symlink || e.kind == TarKind::HardLink) ==> {
            &&& tar_outcome(ctx, e).2 == ActionView::Skip
            &&& tar_outcome(ctx, e).1.last() == (EventView::Warning {
                code: "SYMLINK_IGNORED"@,
                file: e.name@,
                details: "Symlinks are prohibited"@,
            })
            &&& tar_outcome(ctx, e).0.extracted_files == ctx.extracted_files
            &&& tar_outcome(ctx, e).0.extracted_bytes == ctx.extracted_bytes
        },
        !(e.kind == TarKind::Symlink || e.kind == TarKind::HardLink) ==> {
            let u: u64 = match e.size { Some(n) => n, None => 0 };
            let v = ctx.record_verdict(if u >= 1 { u } else { 1 }, u);
            &&& tar_outcome(ctx, e).0.extracted_files == ctx.extracted_files + 1
            &&& v is Some ==> tar_outcome(ctx, e).2 == ActionView::Abort && tar_outcome(ctx, e).1.last() == (
            EventView::Error { code: v->0, details: "limit exceeded"@ })
            &&& v is None ==> tar_outcome(ctx, e).0.extracted_bytes == ctx.extracted_bytes + u
            &&& v is None && e.kind == TarKind::Other ==> tar_outcome(ctx, e).2 == ActionView::Keep
        },
{
}

/// What a rar file reports: every file is counted; one that the limits
/// refuse stops the extraction with an error naming the refusal and its
/// unpacked and packed sizes, in that order; an accepted one is reported
/// as progress at its sanitized path with its unpacked size; and a file is
/// moved exactly when its stored path is not already its sanitized form.
pub proof fn law_rar_reports(ctx: SecurityContext, e: RarEntry, current: u32, total: u32)
    requires
        ctx.extracted_files < u32::MAX,
    ensures
        ({
            let o = rar_outcome(ctx, e, current, total);
            let v = ctx.record_verdict(e.data_area_size, e.unpacked_size);
            &&& o.0.extracted_files == ctx.extracted_files + 1
            &&& (o.2 is Some <==> sanitized(e.name@) != e.name@)
            &&& o.3 == v is Some
            &&& v is Some ==> o.1.last() == (EventView::Error {
                code: v->0,
                details: "limits exceeded. "@ + decimal(e.unpacked_size as nat) + " > "@ + decimal(
                    e.data_area_size as nat,
                ),
            })
            &&& v is None ==> o.1.last() == (EventView::Progress {
                current,
                total,
                file: sanitized(e.name@),
                bytes: e.unpacked_size,
            })
            &&& v is None ==> o.0.extracted_bytes == ctx.extracted_bytes + e.unpacked_size
        }),
{
}

} // verus!
