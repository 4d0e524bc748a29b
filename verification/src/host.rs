//! The host side around the sandbox: the limits it imposes, the path it
//! gives the archive inside the sandbox, how it reads the sandbox's output,
//! the audit of the extracted tree, and the permissions of released files.

use vstd::prelude::*;
use crate::path::{file_name, file_name_spec, path_starts_with, path_starts_with_exec};
use crate::protocol::{HostCommand, HostLimit};
use crate::text::{chars_of, str_eq, string_of};

verus! {

/// The largest compression ratio that the host allows.
pub const DEFAULT_MAX_RATIO: u32 = 100;

/// The most bytes that one extraction may produce (100 GiB).
pub const DEFAULT_MAX_TOTAL_BYTES: u64 = 107374182400;

/// The most entries that one extraction may produce.
pub const DEFAULT_MAX_FILES: u32 = 500000;

/// The instruction budget ("fuel") that every run of the sandbox gets.
pub const SANDBOX_BASE_FUEL: u64 = 5000000000;

/// The fuel added for each byte of the (compressed) archive.
pub const FUEL_PER_ARCHIVE_BYTE: u64 = 1000;

/// The most bytes of output that the sandbox may write (250 MiB).
pub const SANDBOX_STDOUT_CAPACITY: usize = 262144000;

/// The fuel for a run on an archive of `archive_size` bytes: the base
/// budget plus a share for every byte of the archive, so that large
/// archives can be extracted while a small archive that decompresses
/// without end runs out; capped at the largest `u64`.
pub open spec fn sandbox_fuel_spec(archive_size: u64) -> int {
    let f = SANDBOX_BASE_FUEL + archive_size * FUEL_PER_ARCHIVE_BYTE;
    if f > u64::MAX { u64::MAX as int } else { f }
}

/// The fuel for a run on an archive of `archive_size` bytes.
pub fn sandbox_fuel(archive_size: u64) -> (r: u64)
    ensures
        r == sandbox_fuel_spec(archive_size),
{
    match archive_size.checked_mul(FUEL_PER_ARCHIVE_BYTE) {
        Some(share) => match SANDBOX_BASE_FUEL.checked_add(share) {
            Some(f) => f,
            None => u64::MAX,
        },
        None => u64::MAX,
    }
}

/// A larger archive never gets less fuel, and every run gets at least the
/// base budget.
pub proof fn law_fuel_grows_with_archive(a: u64, b: u64)
    requires
        a <= b,
    ensures
        SANDBOX_BASE_FUEL <= sandbox_fuel_spec(a) <= sandbox_fuel_spec(b),
{
    assert(a * FUEL_PER_ARCHIVE_BYTE <= b * FUEL_PER_ARCHIVE_BYTE) by (nonlinear_arith)
        requires
            a <= b,
    ;
}

/// The limits that the host sends with every extraction.
pub fn default_host_limit() -> (r: HostLimit)
    ensures
        r.max_ratio == DEFAULT_MAX_RATIO,
        r.max_total_bytes == DEFAULT_MAX_TOTAL_BYTES,
        r.max_files == DEFAULT_MAX_FILES,
{
    HostLimit {
        max_ratio: DEFAULT_MAX_RATIO,
        max_total_bytes: DEFAULT_MAX_TOTAL_BYTES,
        max_files: DEFAULT_MAX_FILES,
    }
}

/// Where the sandbox sees a copy of the archive at `source_path`: its file
/// name under `/sandbox/`, or `input.archive` where the path has no file
/// name. `windows` tells whether the host reads paths as Windows does.
pub open spec fn sandbox_input_path_spec(source_path: Seq<char>, windows: bool) -> Seq<char> {
    "/sandbox/"@ + match file_name_spec(source_path, windows) {
        Some(n) => n,
        None => "input.archive"@,
    }
}

/// The file name that the copy of the archive takes in the sandbox, on a
/// Windows host (`windows`) or another.
pub fn sandbox_file_name(source_path: &str, windows: bool) -> (r: String)
    ensures
        r@ == match file_name_spec(source_path@, windows) {
            Some(n) => n,
            None => "input.archive"@,
        },
{
    match file_name(source_path, windows) {
        Some(n) => n,
        None => "input.archive".to_owned(),
    }
}

/// Where the sandbox sees the copy of the archive at `source_path`.
pub fn sandbox_input_path(source_path: &str, windows: bool) -> (r: String)
    ensures
        r@ == sandbox_input_path_spec(source_path@, windows),
{
    let name = sandbox_file_name(source_path, windows);
    let mut r = "/sandbox/".to_owned();
    r.append(name.as_str());
    r
}

/// Unicode white space, as `char::is_whitespace` tells it.
pub open spec fn is_white(c: char) -> bool {
    ||| ('\u{9}' <= c && c <= '\u{D}')
    ||| c == ' '
    ||| c == '\u{85}'
    ||| c == '\u{A0}'
    ||| c == '\u{1680}'
    ||| ('\u{2000}' <= c && c <= '\u{200A}')
    ||| c == '\u{2028}'
    ||| c == '\u{2029}'
    ||| c == '\u{202F}'
    ||| c == '\u{205F}'
    ||| c == '\u{3000}'
}

fn is_white_exec(c: char) -> (r: bool)
    ensures
        r == is_white(c),
{
    ('\u{9}' <= c && c <= '\u{D}') || c == ' ' || c == '\u{85}' || c == '\u{A0}' || c == '\u{1680}'
        || ('\u{2000}' <= c && c <= '\u{200A}') || c == '\u{2028}' || c == '\u{2029}' || c == '\u{202F}'
        || c == '\u{205F}' || c == '\u{3000}'
}

/// The pieces of `s` between line feeds, empty pieces included.
pub open spec fn line_pieces(s: Seq<char>) -> Seq<Seq<char>>
    decreases s.len(),
{
    if s.len() == 0 {
        seq![Seq::<char>::empty()]
    } else {
        let prev = line_pieces(s.drop_last());
        if s.last() == '\n' {
            prev.push(Seq::<char>::empty())
        } else {
            prev.update(prev.len() - 1, prev.last().push(s.last()))
        }
    }
}

/// A line that a line feed ended, without the carriage return before it.
pub open spec fn strip_cr(p: Seq<char>) -> Seq<char> {
    if p.len() > 0 && p.last() == '\r' {
        p.drop_last()
    } else {
        p
    }
}

/// A line with something else than white space.
pub open spec fn has_content(p: Seq<char>) -> bool {
    exists|i: int| 0 <= i < p.len() && !is_white(#[trigger] p[i])
}

/// The lines of `lines` that have content, in order.
pub open spec fn with_content(lines: Seq<Seq<char>>) -> Seq<Seq<char>>
    decreases lines.len(),
{
    if lines.len() == 0 {
        Seq::empty()
    } else if has_content(lines.last()) {
        with_content(lines.drop_last()).push(lines.last())
    } else {
        with_content(lines.drop_last())
    }
}

/// The lines of the sandbox's output that carry an event: the lines of
/// `s` (as `str::lines` gives them: split at `\n`, a `\r` before it
/// removed) that are not blank.
pub open spec fn event_lines_spec(s: Seq<char>) -> Seq<Seq<char>> {
    let ps = line_pieces(s);
    with_content(ps.drop_last().map_values(|p: Seq<char>| strip_cr(p)).push(ps.last()))
}

fn has_content_exec(p: &Vec<char>) -> (r: bool)
    ensures
        r == has_content(p@),
{
    let mut i: usize = 0;
    while i < p.len()
        invariant
            i <= p.len(),
            forall|k: int| 0 <= k < i ==> is_white(#[trigger] p@[k]),
        decreases p.len() - i,
    {
        if !is_white_exec(p[i]) {
            return true;
        }
        i = i + 1;
    }
    false
}

/// The lines of the sandbox's output that carry an event.
pub fn event_lines(output: &str) -> (r: Vec<String>)
    ensures
        r@.map_values(|l: String| l@) == event_lines_spec(output@),
{
    let cs = chars_of(output);
    let mut out: Vec<String> = Vec::new();
    let mut cur: Vec<char> = Vec::new();
    let ghost mut done: Seq<Seq<char>> = Seq::empty();
    let mut i: usize = 0;
    while i < cs.len()
        invariant
            i <= cs.len(),
            line_pieces(cs@.take(i as int)) == done.push(cur@),
            out@.map_values(|l: String| l@) == with_content(done.map_values(|p: Seq<char>| strip_cr(p))),
        decreases cs.len() - i,
    {
        let c = cs[i];
        assert(cs@.take(i + 1).drop_last() == cs@.take(i as int));
        if c == '\n' {
            let ghost piece = cur@;
            let ghost before = out@.map_values(|l: String| l@);
            let mut line = cur;
            if line.len() > 0 && line[line.len() - 1] == '\r' {
                line.pop();
            }
            assert(line@ == strip_cr(piece));
            if has_content_exec(&line) {
                out.push(string_of(line.as_slice()));
                assert(out@.map_values(|l: String| l@) == before.push(line@));
            }
            proof {
                let old_done = done;
                done = done.push(piece);
                assert(done.map_values(|p: Seq<char>| strip_cr(p)) == old_done.map_values(
                    |p: Seq<char>| strip_cr(p),
                ).push(strip_cr(piece)));
                let m = old_done.map_values(|p: Seq<char>| strip_cr(p));
                assert(m.push(strip_cr(piece)).drop_last() == m);
                assert(m.push(strip_cr(piece)).last() == strip_cr(piece));
            }
            cur = Vec::new();
        } else {
            cur.push(c);
        }
        i = i + 1;
    }
    assert(cs@.take(cs.len() as int) == cs@);
    let ghost before = out@.map_values(|l: String| l@);
    proof {
        assert(done.push(cur@).drop_last() == done);
        assert(done.map_values(|p: Seq<char>| strip_cr(p)).push(cur@).drop_last() == done.map_values(
            |p: Seq<char>| strip_cr(p),
        ));
    }
    if has_content_exec(&cur) {
        out.push(string_of(cur.as_slice()));
        assert(out@.map_values(|l: String| l@) == before.push(cur@));
    }
    out
}

/// The line that the host reports when the sandbox traps or runs out of
/// fuel, with the trap's message.
pub open spec fn trap_line_spec(msg: Seq<char>) -> Seq<char> {
    "{\"type\": \"error\", \"code\": \"WASM_TRAP\", \"details\": \"Execution crashed or ran out of fuel: "@ + msg
        + "\"}"@
}

/// The line that reports a trap of the sandbox.
pub fn trap_line(msg: &str) -> (r: String)
    ensures
        r@ == trap_line_spec(msg@),
{
    let mut r = "{\"type\": \"error\", \"code\": \"WASM_TRAP\", \"details\": \"Execution crashed or ran out of fuel: ".to_owned();
    r.append(msg);
    r.append("\"}");
    r
}

/// An entry of the extracted tree, as the host's audit sees it.
pub struct AuditEntry {
    /// The entry's path as it is displayed in messages.
    pub display: String,
    pub is_symlink: bool,
    /// The entry's canonical path (or its path, where it has none).
    pub canonical: String,
}

/// The audit's verdict on an entry's path: a symbolic link, or a path
/// that is not under the audited directory's canonical path, is a
/// violation.
pub open spec fn audit_path_spec(root: Seq<char>, e: AuditEntry, windows: bool) -> Result<(), Seq<char>> {
    if e.is_symlink {
        Err("Security violation: Symlink detected at "@ + e.display@)
    } else if !path_starts_with(e.canonical@, root, windows) {
        Err("Security violation: Extracted file escaped sandbox "@ + e.display@)
    } else {
        Ok(())
    }
}

/// Checks one entry of the extracted tree against the audited directory's
/// canonical path `root`, with paths read as the host reads them (Windows
/// where `windows` holds).
pub fn audit_path(root: &str, entry: &AuditEntry, windows: bool) -> (r: Result<(), String>)
    ensures
        match (r, audit_path_spec(root@, *entry, windows)) {
            (Ok(()), Ok(())) => true,
            (Err(e), Err(m)) => e@ == m,
            _ => false,
        },
{
    if entry.is_symlink {
        let mut m = "Security violation: Symlink detected at ".to_owned();
        m.append(entry.display.as_str());
        return Err(m);
    }
    if !path_starts_with_exec(entry.canonical.as_str(), root, windows) {
        let mut m = "Security violation: Extracted file escaped sandbox ".to_owned();
        m.append(entry.display.as_str());
        return Err(m);
    }
    Ok(())
}

/// Adds an entry's size to the audited total; a total over `max_total_bytes`
/// is a violation.
pub fn audit_total(total: u64, len: u64, max_total_bytes: u64) -> (r: Result<u64, String>)
    requires
        total + len <= u64::MAX,
    ensures
        total + len <= max_total_bytes ==> r == Ok::<u64, String>((total + len) as u64),
        total + len > max_total_bytes ==> (r matches Err(m)
            && m@ == "Security violation: Total size exceeded during host audit"@),
{
    let t = total + len;
    if t > max_total_bytes {
        Err("Security violation: Total size exceeded during host audit".to_owned())
    } else {
        Ok(t)
    }
}

/// The permission bits that a released file keeps: read and write for
/// owner, group and others; the execute bits and the set-user-id,
/// set-group-id and sticky bits are cleared.
pub fn strip_exec_bits(mode: u32) -> (r: u32)
    ensures
        r == mode & 0o666,
{
    mode & 0o666
}

/// A released file is never executable nor carries a special bit, keeps
/// every read and write bit it had, and stripping again changes nothing.
pub proof fn law_stripped_mode(mode: u32)
    ensures
        (mode & 0o666) & 0o7111 == 0,
        (mode & 0o666) & 0o666 == mode & 0o666,
        ((mode & 0o666) & 0o666) & 0o666 == mode & 0o666,
{
    assert((mode & 0o666) & 0o7111 == 0) by (bit_vector);
    assert((mode & 0o666) & 0o666 == mode & 0o666) by (bit_vector);
}

/// What `serde_json` makes of a line of the sandbox's output: `None` where
/// the line is not JSON; otherwise the value of its member `key` where
/// that is a string, or `None` inside.
pub uninterp spec fn json_string_member(line: Seq<char>, key: Seq<char>) -> Option<Option<Seq<char>>>;

/// The `type` member of a line of the sandbox's output, as
/// `json_string_member` gives it.
pub open spec fn json_type_member(line: Seq<char>) -> Option<Option<Seq<char>>> {
    json_string_member(line, "type"@)
}

/// `serde_json::from_str::<serde_json::Value>` on a line, then its member
/// `key` read as a string (`Value::get`, `Value::as_str`). The contract
/// says only that the result is a function of the line and the key (named
/// `json_string_member`); what JSON parsing gives is not stated.
#[verifier::external_body]
fn parse_string_member(line: &str, key: &str) -> (r: Option<Option<String>>)
    ensures
        match (r, json_string_member(line@, key@)) {
            (None, None) => true,
            (Some(None), Some(None)) => true,
            (Some(Some(t)), Some(Some(u))) => t@ == u,
            _ => false,
        },
{
    match serde_json::from_str::<serde_json::Value>(line) {
        Ok(v) => Some(v.get(key).and_then(|t| t.as_str()).map(|t| t.to_string())),
        Err(_) => None,
    }
}

/// A parsed line reports an error where its `type` member is `"error"`.
pub fn reports_error(type_member: &Option<Option<String>>) -> (r: bool)
    ensures
        r == (type_member matches Some(Some(t)) && t@ == "error"@),
{
    match type_member {
        Some(Some(t)) => str_eq(t.as_str(), "error"),
        _ => false,
    }
}

/// A line of the sandbox's output reports an error: it is JSON and its
/// `type` member is `"error"`. Such a line fails the analysis.
pub fn line_reports_error(line: &str) -> (r: bool)
    ensures
        r == (json_type_member(line@) matches Some(Some(t)) && t == "error"@),
{
    let member = parse_string_member(line, "type");
    reports_error(&member)
}

/// What the host gathered from the sandbox's output lines.
pub struct SandboxReport {
    /// A line reported an error.
    pub had_error: bool,
}

impl SandboxReport {
    /// Nothing read yet.
    pub fn new() -> (r: Self)
        ensures
            !r.had_error,
    {
        SandboxReport { had_error: false }
    }

    /// Reads one line of the sandbox's output.
    pub fn observe(&mut self, line: &str)
        ensures
            final(self).had_error == (old(self).had_error || (json_type_member(line@) matches Some(Some(t))
                && t == "error"@)),
    {
        if line_reports_error(line) {
            self.had_error = true;
        }
    }

    /// The first gate: the analysis goes on only where no line reported an
    /// error and the sandbox's run itself succeeded.
    pub fn verdict(&self, run_succeeded: bool) -> (r: Result<(), String>)
        ensures
            r is Ok <==> (!self.had_error && run_succeeded),
            r matches Err(m) ==> m@ == "Sandbox analysis failed due to a security violation or extraction error."@,
    {
        if self.had_error || !run_succeeded {
            Err("Sandbox analysis failed due to a security violation or extraction error.".to_owned())
        } else {
            Ok(())
        }
    }
}

/// Where the sandbox writes what it extracts.
pub open spec fn sandbox_output_dir() -> Seq<char> {
    "/sandbox/output/"@
}

/// The command that the host sends to extract the archive that the
/// sandbox sees at `archive_path`, under the default limits.
pub fn extraction_command(archive_path: String, password: Option<String>) -> (r: HostCommand)
    ensures
        r.action@ == "extract"@,
        r.archive_path == archive_path,
        r.output_dir@ == sandbox_output_dir(),
        r.limits.max_ratio == DEFAULT_MAX_RATIO,
        r.limits.max_total_bytes == DEFAULT_MAX_TOTAL_BYTES,
        r.limits.max_files == DEFAULT_MAX_FILES,
        r.password == password,
{
    HostCommand {
        action: "extract".to_owned(),
        archive_path,
        output_dir: "/sandbox/output/".to_owned(),
        limits: default_host_limit(),
        password,
    }
}

proof fn lemma_line_pieces_no_line_feed(s: Seq<char>)
    ensures
        line_pieces(s).len() >= 1,
        forall|k: int, i: int| 0 <= k < line_pieces(s).len() && 0 <= i < line_pieces(s)[k].len()
            ==> #[trigger] line_pieces(s)[k][i] != '\n',
    decreases s.len(),
{
    if s.len() > 0 {
        let d = s.drop_last();
        lemma_line_pieces_no_line_feed(d);
        let prev = line_pieces(d);
        let now = line_pieces(s);
        assert forall|k: int, i: int| 0 <= k < now.len() && 0 <= i < now[k].len() implies #[trigger] now[k][i]
            != '\n' by {
            if s.last() == '\n' {
                if k < prev.len() {
                    assert(now[k] == prev[k]);
                }
            } else {
                if k < prev.len() - 1 {
                    assert(now[k] == prev[k]);
                } else {
                    let l = prev[prev.len() - 1];
                    assert(now[k] == l.push(s.last()));
                    if i < l.len() {
                        assert(now[k][i] == l[i]);
                    }
                }
            }
        }
    }
}

proof fn lemma_with_content_from(lines: Seq<Seq<char>>)
    ensures
        forall|k: int| 0 <= k < with_content(lines).len() ==> has_content(#[trigger] with_content(lines)[k]),
        forall|k: int| 0 <= k < with_content(lines).len() ==> exists|j: int| 0 <= j < lines.len() && lines[j]
            == #[trigger] with_content(lines)[k],
    decreases lines.len(),
{
    if lines.len() > 0 {
        let d = lines.drop_last();
        lemma_with_content_from(d);
        let w = with_content(lines);
        let wd = with_content(d);
        assert forall|k: int| 0 <= k < w.len() implies has_content(#[trigger] w[k]) by {
            if k < wd.len() {
                assert(w[k] == wd[k]);
            }
        }
        assert forall|k: int| 0 <= k < w.len() implies exists|j: int| 0 <= j < lines.len() && lines[j]
            == #[trigger] w[k] by {
            if k < wd.len() {
                assert(w[k] == wd[k]);
                let j = choose|j: int| 0 <= j < d.len() && d[j] == wd[k];
                assert(lines[j] == d[j]);
            } else {
                assert(w[k] == lines[lines.len() - 1]);
            }
        }
    }
}

/// Every line forwarded from the sandbox's output holds something other
/// than white space, and no line feed.
pub proof fn law_event_lines_are_single_nonblank_lines(s: Seq<char>)
    ensures
        forall|k: int| 0 <= k < event_lines_spec(s).len() ==> has_content(#[trigger] event_lines_spec(s)[k]),
        forall|k: int, i: int| 0 <= k < event_lines_spec(s).len() && 0 <= i < event_lines_spec(s)[k].len()
            ==> #[trigger] event_lines_spec(s)[k][i] != '\n',
{
    let ps = line_pieces(s);
    lemma_line_pieces_no_line_feed(s);
    let all = ps.drop_last().map_values(|p: Seq<char>| strip_cr(p)).push(ps.last());
    assert forall|j: int, i: int| 0 <= j < all.len() && 0 <= i < all[j].len() implies #[trigger] all[j][i] != '\n' by {
        if j < ps.len() - 1 {
            assert(all[j] == strip_cr(ps[j]));
            assert(all[j][i] == ps[j][i]);
        } else {
            assert(all[j] == ps[ps.len() - 1]);
        }
    }
    lemma_with_content_from(all);
    let out = event_lines_spec(s);
    assert forall|k: int, i: int| 0 <= k < out.len() && 0 <= i < out[k].len() implies #[trigger] out[k][i] != '\n' by {
        let j = choose|j: int| 0 <= j < all.len() && all[j] == out[k];
        assert(all[j][i] != '\n');
    }
}

/// The copy of an archive at a path ending with `/` and a name is seen in
/// the sandbox under `/sandbox/` and that very name.
pub proof fn law_sandbox_input_keeps_name(p: Seq<char>, n: Seq<char>, windows: bool)
    requires
        n.len() > 0,
        n != seq!['.'],
        n != seq!['.', '.'],
        forall|i: int| 0 <= i < n.len() ==> !crate::path::is_host_separator(#[trigger] n[i], windows),
    ensures
        sandbox_input_path_spec(p + seq!['/'] + n, windows) == "/sandbox/"@ + n,
{
    crate::path::law_file_name_of_joined_path(p, n, windows);
}

/// The audit accepts an entry that is no link and sits, by its canonical
/// path, right under the audited directory, and refuses every link.
pub proof fn law_audit_accepts_children(root: Seq<char>, n: Seq<char>, e: AuditEntry, windows: bool)
    requires
        crate::path::after_drive(root, windows).len() > 0,
        n.len() > 0,
        n != seq!['.'],
        forall|i: int| 0 <= i < n.len() ==> !crate::path::is_host_separator(#[trigger] n[i], windows),
    ensures
        !e.is_symlink && e.canonical@ == root + seq!['/'] + n ==> audit_path_spec(root, e, windows) == Ok::<
            (),
            Seq<char>,
        >(()),
        e.is_symlink ==> audit_path_spec(root, e, windows) is Err,
{
    crate::path::law_components_of_child(root, n, windows);
}

} // verus!
