//! The messages between the host and the sandbox: the command that the
//! host sends in, the events that the sandbox reports back, and how a
//! command is turned into the extraction to run.

use vstd::prelude::*;
use crate::text::{ends_with, ends_with_seq, fold_case, fold_str, str_eq};

verus! {

/// Limits that the host imposes on one extraction.
#[derive(Debug, PartialEq, Eq)]
pub struct HostLimit {
    pub max_ratio: u32,
    pub max_total_bytes: u64,
    pub max_files: u32,
}

/// The command that the host sends to the sandbox.
#[derive(Debug, PartialEq, Eq)]
pub struct HostCommand {
    pub action: String,
    pub archive_path: String,
    pub output_dir: String,
    pub limits: HostLimit,
    pub password: Option<String>,
}

/// An event that the sandbox reports to the host.
#[derive(Debug, PartialEq, Eq)]
pub enum SandboxEvent {
    Progress { current: u32, total: u32, file: String, bytes: u64 },
    Warning { code: String, file: String, details: String },
    Complete { files_extracted: u32, files_blocked: u32, total_bytes: u64 },
    Error { code: String, details: String },
}

/// An event with its strings taken as character sequences.
pub enum EventView {
    Progress { current: u32, total: u32, file: Seq<char>, bytes: u64 },
    Warning { code: Seq<char>, file: Seq<char>, details: Seq<char> },
    Complete { files_extracted: u32, files_blocked: u32, total_bytes: u64 },
    Error { code: Seq<char>, details: Seq<char> },
}

impl View for SandboxEvent {
    type V = EventView;

    open spec fn view(&self) -> EventView {
        match self {
            SandboxEvent::Progress { current, total, file, bytes } => EventView::Progress {
                current: *current,
                total: *total,
                file: file@,
                bytes: *bytes,
            },
            SandboxEvent::Warning { code, file, details } => EventView::Warning {
                code: code@,
                file: file@,
                details: details@,
            },
            SandboxEvent::Complete { files_extracted, files_blocked, total_bytes } => EventView::Complete {
                files_extracted: *files_extracted,
                files_blocked: *files_blocked,
                total_bytes: *total_bytes,
            },
            SandboxEvent::Error { code, details } => EventView::Error { code: code@, details: details@ },
        }
    }
}

/// The views of a sequence of events.
pub open spec fn events_view(events: Seq<SandboxEvent>) -> Seq<EventView> {
    events.map_values(|e: SandboxEvent| e@)
}

/// The archive formats that the sandbox extracts.
#[derive(Debug, Clone, Copy, PartialEq, Eq, Structural)]
pub enum ArchiveFormat {
    Zip,
    Rar,
    Tar,
    TarGz,
}

/// The format that an archive's path names by its extension, if any.
pub open spec fn format_of(path: Seq<char>) -> Option<ArchiveFormat> {
    if ends_with_seq(path, ".zip"@) {
        Some(ArchiveFormat::Zip)
    } else if ends_with_seq(path, ".rar"@) {
        Some(ArchiveFormat::Rar)
    } else if ends_with_seq(path, ".tar"@) {
        Some(ArchiveFormat::Tar)
    } else if ends_with_seq(path, ".tar.gz"@) || ends_with_seq(path, ".tgz"@) {
        Some(ArchiveFormat::TarGz)
    } else {
        None
    }
}

/// What running `cmd` gives: the format to extract with (told by the
/// archive path's extension, whatever the case of its letters), or the
/// error event that the sandbox reports instead.
pub open spec fn command_plan(cmd: HostCommand) -> Result<ArchiveFormat, EventView> {
    if cmd.action@ == "extract"@ {
        match format_of(cmd.archive_path@.map_values(|c: char| fold_case(c))) {
            Some(f) => Ok(f),
            None => Err(EventView::Error { code: "EXTRACT_FAILED"@, details: "Unsupported format"@ }),
        }
    } else {
        Err(
            EventView::Error {
                code: "UNKNOWN_ACTION"@,
                details: "Action `"@ + cmd.action@ + "` not supported"@,
            },
        )
    }
}

/// Decides what to do with a command: only `extract` is understood, and
/// the archive's format is told by its extension, in upper or lower case.
pub fn plan_command(cmd: &HostCommand) -> (r: Result<ArchiveFormat, SandboxEvent>)
    ensures
        match (r, command_plan(*cmd)) {
            (Ok(f), Ok(g)) => f == g,
            (Err(e), Err(v)) => e@ == v,
            _ => false,
        },
{
    if str_eq(cmd.action.as_str(), "extract") {
        let lowered = fold_str(cmd.archive_path.as_str());
        let path = lowered.as_str();
        if ends_with(path, ".zip") {
            Ok(ArchiveFormat::Zip)
        } else if ends_with(path, ".rar") {
            Ok(ArchiveFormat::Rar)
        } else if ends_with(path, ".tar") {
            Ok(ArchiveFormat::Tar)
        } else if ends_with(path, ".tar.gz") || ends_with(path, ".tgz") {
            Ok(ArchiveFormat::TarGz)
        } else {
            Err(SandboxEvent::Error { code: "EXTRACT_FAILED".to_owned(), details: "Unsupported format".to_owned() })
        }
    } else {
        let mut details = "Action `".to_owned();
        details.append(cmd.action.as_str());
        details.append("` not supported");
        Err(SandboxEvent::Error { code: "UNKNOWN_ACTION".to_owned(), details })
    }
}

proof fn lemma_fold_concat(a: Seq<char>, b: Seq<char>)
    ensures
        (a + b).map_values(|c: char| fold_case(c)) == a.map_values(|c: char| fold_case(c)) + b.map_values(
            |c: char| fold_case(c),
        ),
{
    assert((a + b).map_values(|c: char| fold_case(c)) =~= a.map_values(|c: char| fold_case(c)) + b.map_values(
        |c: char| fold_case(c),
    ));
}

proof fn lemma_ends_with_concat(q: Seq<char>, y: Seq<char>)
    ensures
        ends_with_seq(q + y, y),
{
    assert((q + y).subrange((q + y).len() - y.len(), (q + y).len() as int) =~= y);
}

proof fn lemma_not_ends_with(q: Seq<char>, y: Seq<char>, x: Seq<char>, k: int)
    requires
        0 <= k < x.len(),
        k < y.len(),
        y[y.len() - 1 - k] != x[x.len() - 1 - k],
    ensures
        !ends_with_seq(q + y, x),
{
    let s = q + y;
    if ends_with_seq(s, x) {
        let t = s.subrange(s.len() - x.len(), s.len() as int);
        assert(t[x.len() - 1 - k] == s[s.len() - 1 - k]);
        assert(s[s.len() - 1 - k] == y[y.len() - 1 - k]);
    }
}

/// The extension tells the format whatever the case of its letters:
/// `.zip`, `.rar`, `.tar`, `.tar.gz` and `.tgz` are recognized in lower and
/// in upper case, after any path.
pub proof fn law_command_formats(cmd: HostCommand, p: Seq<char>)
    requires
        cmd.action@ == "extract"@,
    ensures
        cmd.archive_path@ == p + ".zip"@ || cmd.archive_path@ == p + ".ZIP"@ ==> command_plan(cmd) == Ok::<
            ArchiveFormat,
            EventView,
        >(ArchiveFormat::Zip),
        cmd.archive_path@ == p + ".rar"@ || cmd.archive_path@ == p + ".RAR"@ ==> command_plan(cmd) == Ok::<
            ArchiveFormat,
            EventView,
        >(ArchiveFormat::Rar),
        cmd.archive_path@ == p + ".tar"@ || cmd.archive_path@ == p + ".TAR"@ ==> command_plan(cmd) == Ok::<
            ArchiveFormat,
            EventView,
        >(ArchiveFormat::Tar),
        cmd.archive_path@ == p + ".tar.gz"@ || cmd.archive_path@ == p + ".TAR.GZ"@ || cmd.archive_path@ == p
            + ".tgz"@ || cmd.archive_path@ == p + ".TGZ"@ ==> command_plan(cmd) == Ok::<ArchiveFormat, EventView>(
            ArchiveFormat::TarGz,
        ),
{
    reveal_strlit(".zip");
    reveal_strlit(".ZIP");
    reveal_strlit(".rar");
    reveal_strlit(".RAR");
    reveal_strlit(".tar");
    reveal_strlit(".TAR");
    reveal_strlit(".tar.gz");
    reveal_strlit(".TAR.GZ");
    reveal_strlit(".tgz");
    reveal_strlit(".TGZ");
    let q = p.map_values(|c: char| fold_case(c));
    let path = cmd.archive_path@;
    let low = path.map_values(|c: char| fold_case(c));
    if path == p + ".zip"@ || path == p + ".ZIP"@ {
        let y = if path == p + ".zip"@ { ".zip"@ } else { ".ZIP"@ };
        lemma_fold_concat(p, y);
        assert(y.map_values(|c: char| fold_case(c)) =~= ".zip"@);
        lemma_ends_with_concat(q, ".zip"@);
    }
    if path == p + ".rar"@ || path == p + ".RAR"@ {
        let y = if path == p + ".rar"@ { ".rar"@ } else { ".RAR"@ };
        lemma_fold_concat(p, y);
        assert(y.map_values(|c: char| fold_case(c)) =~= ".rar"@);
        lemma_ends_with_concat(q, ".rar"@);
        lemma_not_ends_with(q, ".rar"@, ".zip"@, 0);
    }
    if path == p + ".tar"@ || path == p + ".TAR"@ {
        let y = if path == p + ".tar"@ { ".tar"@ } else { ".TAR"@ };
        lemma_fold_concat(p, y);
        assert(y.map_values(|c: char| fold_case(c)) =~= ".tar"@);
        lemma_ends_with_concat(q, ".tar"@);
        lemma_not_ends_with(q, ".tar"@, ".zip"@, 0);
        assert(".tar"@[1] == 't');
        assert(".rar"@[1] == 'r');
        lemma_not_ends_with(q, ".tar"@, ".rar"@, 2);
    }
    if path == p + ".tar.gz"@ || path == p + ".TAR.GZ"@ {
        let y = if path == p + ".tar.gz"@ { ".tar.gz"@ } else { ".TAR.GZ"@ };
        lemma_fold_concat(p, y);
        assert(y.map_values(|c: char| fold_case(c)) =~= ".tar.gz"@);
        lemma_ends_with_concat(q, ".tar.gz"@);
        lemma_not_ends_with(q, ".tar.gz"@, ".zip"@, 0);
        lemma_not_ends_with(q, ".tar.gz"@, ".rar"@, 0);
        lemma_not_ends_with(q, ".tar.gz"@, ".tar"@, 0);
    }
    if path == p + ".tgz"@ || path == p + ".TGZ"@ {
        let y = if path == p + ".tgz"@ { ".tgz"@ } else { ".TGZ"@ };
        lemma_fold_concat(p, y);
        assert(y.map_values(|c: char| fold_case(c)) =~= ".tgz"@);
        lemma_ends_with_concat(q, ".tgz"@);
        lemma_not_ends_with(q, ".tgz"@, ".zip"@, 1);
        lemma_not_ends_with(q, ".tgz"@, ".rar"@, 0);
        assert(".tgz"@[3] == 'z');
        assert(".tar"@[3] == 'r');
        lemma_not_ends_with(q, ".tgz"@, ".tar"@, 0);
    }
}

/// Any action other than `extract` is refused as unknown, naming the
/// action.
pub proof fn law_unknown_action(cmd: HostCommand)
    requires
        cmd.action@ != "extract"@,
    ensures
        command_plan(cmd) == Err::<ArchiveFormat, EventView>(
            EventView::Error { code: "UNKNOWN_ACTION"@, details: "Action `"@ + cmd.action@ + "` not supported"@ },
        ),
{
}

} // verus!
