//! Paths as character sequences: how a path splits into pieces, how a
//! path from an archive is made safe to join under the output directory,
//! and the laws that the sanitizer obeys.

use vstd::prelude::*;
use crate::text::{chars_of, string_of};

verus! {

/// A path separator: `/`, or `\` as Windows also reads it.
pub open spec fn is_separator(c: char) -> bool {
    c == '/' || c == '\\'
}

/// The pieces of `s` between separators, empty pieces included (a path of
/// `n` separators has `n + 1` pieces).
pub open spec fn segments(s: Seq<char>) -> Seq<Seq<char>>
    decreases s.len(),
{
    if s.len() == 0 {
        seq![Seq::<char>::empty()]
    } else {
        let prev = segments(s.drop_last());
        if is_separator(s.last()) {
            prev.push(Seq::<char>::empty())
        } else {
            prev.update(prev.len() - 1, prev.last().push(s.last()))
        }
    }
}

/// An ASCII letter.
pub open spec fn is_ascii_letter(c: char) -> bool {
    ('a' <= c && c <= 'z') || ('A' <= c && c <= 'Z')
}

/// A piece (or path) that begins with a drive designator such as `C:`.
pub open spec fn is_drive(seg: Seq<char>) -> bool {
    seg.len() >= 2 && is_ascii_letter(seg[0]) && seg[1] == ':'
}

/// `p` without the drive designators at its start (Windows reads `C:x` as
/// `x` on drive `C:`).
pub open spec fn strip_drives(p: Seq<char>) -> Seq<char>
    decreases p.len(),
{
    if is_drive(p) {
        strip_drives(p.subrange(2, p.len() as int))
    } else {
        p
    }
}

/// A piece that names a file or directory: neither empty, nor `.`, nor `..`.
pub open spec fn is_normal(seg: Seq<char>) -> bool {
    &&& seg.len() > 0
    &&& seg != seq!['.']
    &&& seg != seq!['.', '.']
}

/// The pieces with the first one freed of its drive designators: pieces
/// are passed over from the start until one still names something once
/// its designators are stripped; that one stands first, stripped. Only
/// the start of a path can hold a drive.
pub open spec fn undrive(parts: Seq<Seq<char>>) -> Seq<Seq<char>>
    decreases parts.len(),
{
    if parts.len() == 0 {
        parts
    } else if is_normal(strip_drives(parts[0])) {
        parts.update(0, strip_drives(parts[0]))
    } else {
        undrive(parts.drop_first())
    }
}

/// The pieces of `segs` that name a file or directory, in order.
pub open spec fn normal_parts(segs: Seq<Seq<char>>) -> Seq<Seq<char>>
    decreases segs.len(),
{
    if segs.len() == 0 {
        Seq::empty()
    } else if is_normal(segs.last()) {
        normal_parts(segs.drop_last()).push(segs.last())
    } else {
        normal_parts(segs.drop_last())
    }
}

/// The pieces joined with `/` between them.
pub open spec fn join(parts: Seq<Seq<char>>) -> Seq<char>
    decreases parts.len(),
{
    if parts.len() == 0 {
        Seq::empty()
    } else if parts.len() == 1 {
        parts[0]
    } else {
        join(parts.drop_last()) + seq!['/'] + parts.last()
    }
}

/// Control characters and bidirectional-override marks that the sanitizer
/// strips from names (they can disguise a file's real extension).
pub open spec fn is_bad_char(c: char) -> bool {
    ||| c == '\0'
    ||| c == '\x08'
    ||| c == '\x09'
    ||| c == '\x0A'
    ||| c == '\x0D'
    ||| c == '\u{202E}'
    ||| c == '\u{200F}'
    ||| c == '\u{202A}'
    ||| c == '\u{202B}'
    ||| c == '\u{202C}'
    ||| c == '\u{202D}'
    ||| c == '\u{202F}'
}

/// `s` without its bad characters.
pub open spec fn remove_bad(s: Seq<char>) -> Seq<char>
    decreases s.len(),
{
    if s.len() == 0 {
        Seq::empty()
    } else if is_bad_char(s.last()) {
        remove_bad(s.drop_last())
    } else {
        remove_bad(s.drop_last()).push(s.last())
    }
}

/// The name given to an entry whose path sanitizes to nothing.
pub open spec fn fallback_name() -> Seq<char> {
    "unnamed_sanitized_file"@
}

/// What `sanitize_path` returns for `s`: the bad characters removed, then
/// the pieces that name files and directories, the first one freed of
/// drive designators, joined with `/`; or the fallback name where nothing
/// is left.
pub open spec fn sanitized(s: Seq<char>) -> Seq<char> {
    let r = join(undrive(normal_parts(segments(remove_bad(s)))));
    if r.len() == 0 {
        fallback_name()
    } else {
        r
    }
}

/// No character of `s` is a bad character.
pub open spec fn no_bad(s: Seq<char>) -> bool {
    forall|i: int| 0 <= i < s.len() ==> !is_bad_char(#[trigger] s[i])
}

/// No character of `s` is a separator.
pub open spec fn no_sep(s: Seq<char>) -> bool {
    forall|i: int| 0 <= i < s.len() ==> !is_separator(#[trigger] s[i])
}

/// No character of `s` is a backslash.
pub open spec fn no_backslash(s: Seq<char>) -> bool {
    forall|i: int| 0 <= i < s.len() ==> #[trigger] s[i] != '\\'
}

/// A relative path that can be joined under a directory without leaving
/// it, on Unix as on Windows: not empty, no bad characters, `/` as its only
/// separator, no drive at its start, and every piece names a file or
/// directory (so no `..`, no root, no empty piece).
pub open spec fn is_safe(s: Seq<char>) -> bool {
    &&& s.len() > 0
    &&& no_bad(s)
    &&& no_backslash(s)
    &&& !is_drive(segments(s)[0])
    &&& forall|k: int| 0 <= k < segments(s).len() ==> is_normal(#[trigger] segments(s)[k])
}

fn is_bad_char_exec(c: char) -> (r: bool)
    ensures
        r == is_bad_char(c),
{
    c == '\0' || c == '\x08' || c == '\x09' || c == '\x0A' || c == '\x0D' || c == '\u{202E}'
        || c == '\u{200F}' || c == '\u{202A}' || c == '\u{202B}' || c == '\u{202C}'
        || c == '\u{202D}' || c == '\u{202F}'
}

fn is_drive_exec(seg: &Vec<char>) -> (r: bool)
    ensures
        r == is_drive(seg@),
{
    if seg.len() < 2 {
        return false;
    }
    let c0 = seg[0];
    (('a' <= c0 && c0 <= 'z') || ('A' <= c0 && c0 <= 'Z')) && seg[1] == ':'
}

fn is_normal_exec(seg: &Vec<char>) -> (r: bool)
    ensures
        r == is_normal(seg@),
{
    if seg.len() == 0 {
        false
    } else if seg.len() == 1 {
        let r = seg[0] != '.';
        assert(r ==> seg@ != seq!['.']);
        assert(!r ==> seg@ == seq!['.']);
        r
    } else {
        if seg.len() == 2 {
            let r = !(seg[0] == '.' && seg[1] == '.');
            assert(r ==> seg@ != seq!['.', '.']);
            assert(!r ==> seg@ == seq!['.', '.']);
            r
        } else {
            assert(seg@ != seq!['.']);
            assert(seg@ != seq!['.', '.']);
            true
        }
    }
}

pub proof fn lemma_segments_nonempty(s: Seq<char>)
    ensures
        segments(s).len() >= 1,
    decreases s.len(),
{
    if s.len() > 0 {
        lemma_segments_nonempty(s.drop_last());
    }
}

fn normal_parts_exec(segs: Vec<Vec<char>>) -> (r: Vec<Vec<char>>)
    ensures
        seq_views(r@) == normal_parts(seq_views(segs@)),
{
    let mut r: Vec<Vec<char>> = Vec::new();
    let mut i: usize = 0;
    let ghost all = seq_views(segs@);
    while i < segs.len()
        invariant
            i <= segs.len(),
            all == seq_views(segs@),
            seq_views(r@) == normal_parts(all.take(i as int)),
        decreases segs.len() - i,
    {
        assert(all.take(i + 1).drop_last() == all.take(i as int));
        assert(all.take(i + 1).last() == segs@[i as int]@);
        if is_normal_exec(&segs[i]) {
            let ghost before = seq_views(r@);
            let seg = segs[i].clone();
            r.push(seg);
            assert(seq_views(r@) == before.push(seg@));
        }
        i = i + 1;
    }
    assert(all.take(segs.len() as int) == all);
    r
}

fn strip_drives_exec(p: &Vec<char>) -> (r: Vec<char>)
    ensures
        r@ == strip_drives(p@),
{
    let mut k: usize = 0;
    assert(p@.subrange(0, p.len() as int) == p@);
    while p.len() - k >= 2 && ((('a' <= p[k] && p[k] <= 'z') || ('A' <= p[k] && p[k] <= 'Z')) && p[k + 1] == ':')
        invariant
            k <= p.len(),
            strip_drives(p@) == strip_drives(p@.subrange(k as int, p.len() as int)),
        decreases p.len() - k,
    {
        let ghost rest = p@.subrange(k as int, p.len() as int);
        assert(is_drive(rest));
        assert(rest.subrange(2, rest.len() as int) == p@.subrange(k + 2, p.len() as int));
        k = k + 2;
    }
    let ghost rest = p@.subrange(k as int, p.len() as int);
    assert(!is_drive(rest)) by {
        if rest.len() >= 2 {
            assert(rest[0] == p@[k as int]);
            assert(rest[1] == p@[k + 1]);
        }
    }
    let mut r: Vec<char> = Vec::new();
    let mut j: usize = k;
    while j < p.len()
        invariant
            k <= j <= p.len(),
            r@ == p@.subrange(k as int, j as int),
        decreases p.len() - j,
    {
        r.push(p[j]);
        assert(p@.subrange(k as int, j + 1) == p@.subrange(k as int, j as int).push(p@[j as int]));
        j = j + 1;
    }
    r
}

fn undrive_exec(parts: Vec<Vec<char>>) -> (r: Vec<Vec<char>>)
    ensures
        seq_views(r@) == undrive(seq_views(parts@)),
{
    let ghost all = seq_views(parts@);
    let mut i: usize = 0;
    assert(all.skip(0) == all);
    while i < parts.len()
        invariant
            i <= parts.len(),
            all == seq_views(parts@),
            undrive(all) == undrive(all.skip(i as int)),
        decreases parts.len() - i,
    {
        let first = strip_drives_exec(&parts[i]);
        let ghost rest = all.skip(i as int);
        assert(rest[0] == parts@[i as int]@);
        if is_normal_exec(&first) {
            let mut r: Vec<Vec<char>> = Vec::new();
            r.push(first);
            let mut j: usize = i + 1;
            while j < parts.len()
                invariant
                    i < j <= parts.len(),
                    all == seq_views(parts@),
                    seq_views(r@) == rest.update(0, first@).take(j - i),
                    rest == all.skip(i as int),
                decreases parts.len() - j,
            {
                let ghost before = seq_views(r@);
                let seg = parts[j].clone();
                r.push(seg);
                assert(rest.update(0, first@).take(j + 1 - i) == rest.update(0, first@).take(j - i).push(seg@));
                assert(seq_views(r@) == before.push(seg@));
                j = j + 1;
            }
            assert(rest.update(0, first@).take(parts.len() - i) == rest.update(0, first@));
            return r;
        }
        assert(rest.drop_first() == all.skip(i + 1));
        i = i + 1;
    }
    assert(all.skip(parts.len() as int).len() == 0);
    Vec::new()
}

fn join_exec(parts: &Vec<Vec<char>>) -> (r: Vec<char>)
    ensures
        r@ == join(seq_views(parts@)),
{
    let ghost all = seq_views(parts@);
    let mut out: Vec<char> = Vec::new();
    let mut i: usize = 0;
    while i < parts.len()
        invariant
            i <= parts.len(),
            all == seq_views(parts@),
            out@ == join(all.take(i as int)),
        decreases parts.len() - i,
    {
        let ghost before = out@;
        if i > 0 {
            out.push('/');
        }
        let mut k: usize = 0;
        let ghost base = out@;
        while k < parts[i].len()
            invariant
                i < parts.len(),
                k <= parts[i as int].len(),
                out@ == base + parts[i as int]@.take(k as int),
            decreases parts[i as int].len() - k,
        {
            out.push(parts[i][k]);
            assert(parts[i as int]@.take(k + 1) == parts[i as int]@.take(k as int).push(parts[i as int]@[k as int]));
            k = k + 1;
        }
        assert(parts[i as int]@.take(parts[i as int]@.len() as int) == parts[i as int]@);
        assert(all.take(i + 1).drop_last() == all.take(i as int));
        assert(all.take(i + 1).last() == parts@[i as int]@);
        if i == 0 {
            assert(all.take(1)[0] == parts@[0]@);
        }
        i = i + 1;
    }
    assert(all.take(parts.len() as int) == all);
    out
}

/// `cs` without its bad characters.
fn remove_bad_exec(cs: &Vec<char>) -> (r: Vec<char>)
    ensures
        r@ == remove_bad(cs@),
{
    let mut clean: Vec<char> = Vec::new();
    let mut j: usize = 0;
    while j < cs.len()
        invariant
            j <= cs.len(),
            clean@ == remove_bad(cs@.take(j as int)),
        decreases cs.len() - j,
    {
        assert(cs@.take(j + 1).drop_last() == cs@.take(j as int));
        if !is_bad_char_exec(cs[j]) {
            clean.push(cs[j]);
        }
        j = j + 1;
    }
    assert(cs@.take(cs.len() as int) == cs@);
    clean
}

/// The sanitized form of a path, as a character sequence.
pub fn sanitize_chars(cs: &Vec<char>) -> (r: Vec<char>)
    ensures
        r@ == sanitized(cs@),
{
    let clean = remove_bad_exec(cs);
    let segs = split_segments(&clean);
    let parts = normal_parts_exec(segs);
    let parts = undrive_exec(parts);
    let out = join_exec(&parts);
    if out.len() == 0 {
        chars_of("unnamed_sanitized_file")
    } else {
        out
    }
}

/// Makes a path from an archive safe to join under the output directory:
/// control characters and bidirectional-override marks are removed first;
/// then the path is split at `/` and `\`, and only the pieces that name
/// files and directories are kept (no root, no `.`, no `..`, no empty
/// piece); the first of them loses any drive designator at its start
/// (`C:\x` and `C:x` both give `x`, while `d/a:b` is kept as it is); the
/// pieces are joined with `/`; a path left empty becomes
/// `unnamed_sanitized_file`.
pub fn sanitize(filepath: &str) -> (r: String)
    ensures
        r@ == sanitized(filepath@),
{
    let cs = chars_of(filepath);
    let out = sanitize_chars(&cs);
    string_of(out.as_slice())
}

proof fn lemma_segments_pieces(s: Seq<char>)
    ensures
        forall|k: int| 0 <= k < segments(s).len() ==> no_sep(#[trigger] segments(s)[k]),
        no_bad(s) ==> forall|k: int| 0 <= k < segments(s).len() ==> no_bad(#[trigger] segments(s)[k]),
    decreases s.len(),
{
    if s.len() > 0 {
        let p = s.drop_last();
        lemma_segments_pieces(p);
        lemma_segments_nonempty(p);
        let prev = segments(p);
        if no_bad(s) {
            assert(no_bad(p)) by {
                assert forall|i: int| 0 <= i < p.len() implies !is_bad_char(#[trigger] p[i]) by {
                    assert(p[i] == s[i]);
                }
            }
        }
        if !is_separator(s.last()) {
            let l = prev.last().push(s.last());
            assert(no_sep(l)) by {
                assert forall|i: int| 0 <= i < l.len() implies !is_separator(#[trigger] l[i]) by {
                    if i < prev.last().len() {
                        assert(l[i] == prev[prev.len() - 1][i]);
                    }
                }
            }
            if no_bad(s) {
                assert(no_bad(l)) by {
                    assert forall|i: int| 0 <= i < l.len() implies !is_bad_char(#[trigger] l[i]) by {
                        if i < prev.last().len() {
                            assert(l[i] == prev[prev.len() - 1][i]);
                        } else {
                            assert(l[i] == s[s.len() - 1]);
                        }
                    }
                }
            }
            assert forall|k: int| 0 <= k < segments(s).len() implies no_sep(#[trigger] segments(s)[k]) by {
                if k < prev.len() - 1 {
                    assert(segments(s)[k] == prev[k]);
                }
            }
            if no_bad(s) {
                assert forall|k: int| 0 <= k < segments(s).len() implies no_bad(#[trigger] segments(s)[k]) by {
                    if k < prev.len() - 1 {
                        assert(segments(s)[k] == prev[k]);
                    }
                }
            }
        } else {
            let e = Seq::<char>::empty();
            assert(no_sep(e));
            assert(no_bad(e));
            assert forall|k: int| 0 <= k < segments(s).len() implies no_sep(#[trigger] segments(s)[k]) by {
                if k < prev.len() {
                    assert(segments(s)[k] == prev[k]);
                }
            }
            if no_bad(s) {
                assert forall|k: int| 0 <= k < segments(s).len() implies no_bad(#[trigger] segments(s)[k]) by {
                    if k < prev.len() {
                        assert(segments(s)[k] == prev[k]);
                    }
                }
            }
        }
    }
}

proof fn lemma_normal_parts_from(segs: Seq<Seq<char>>)
    ensures
        forall|k: int| 0 <= k < normal_parts(segs).len() ==> is_normal(#[trigger] normal_parts(segs)[k]),
        forall|k: int| 0 <= k < normal_parts(segs).len() ==>
            exists|j: int| 0 <= j < segs.len() && segs[j] == #[trigger] normal_parts(segs)[k],
    decreases segs.len(),
{
    if segs.len() > 0 {
        let d = segs.drop_last();
        lemma_normal_parts_from(d);
        let np = normal_parts(segs);
        let nd = normal_parts(d);
        assert forall|k: int| 0 <= k < np.len() implies
            exists|j: int| 0 <= j < segs.len() && segs[j] == #[trigger] np[k] by {
            if k < nd.len() {
                assert(np[k] == nd[k]);
                let j = choose|j: int| 0 <= j < d.len() && d[j] == nd[k];
                assert(segs[j] == d[j]);
            } else {
                assert(np[k] == segs[segs.len() - 1]);
            }
        }
        assert forall|k: int| 0 <= k < np.len() implies is_normal(#[trigger] np[k]) by {
            if k < nd.len() {
                assert(np[k] == nd[k]);
            }
        }
    }
}

proof fn lemma_normal_parts_id(segs: Seq<Seq<char>>)
    requires
        forall|k: int| 0 <= k < segs.len() ==> is_normal(#[trigger] segs[k]),
    ensures
        normal_parts(segs) == segs,
    decreases segs.len(),
{
    if segs.len() > 0 {
        let d = segs.drop_last();
        assert forall|k: int| 0 <= k < d.len() implies is_normal(#[trigger] d[k]) by {
            assert(d[k] == segs[k]);
        }
        lemma_normal_parts_id(d);
        assert(is_normal(segs[segs.len() - 1]));
        assert(d.push(segs.last()) == segs);
    }
}

proof fn lemma_join_no_bad(parts: Seq<Seq<char>>)
    requires
        forall|k: int| 0 <= k < parts.len() ==> no_bad(#[trigger] parts[k]),
    ensures
        no_bad(join(parts)),
    decreases parts.len(),
{
    if parts.len() >= 2 {
        let d = parts.drop_last();
        assert forall|k: int| 0 <= k < d.len() implies no_bad(#[trigger] d[k]) by {
            assert(d[k] == parts[k]);
        }
        lemma_join_no_bad(d);
        let l = parts.last();
        assert(no_bad(parts[parts.len() - 1]));
        let j = join(d) + seq!['/'] + l;
        assert forall|i: int| 0 <= i < j.len() implies !is_bad_char(#[trigger] j[i]) by {
            if i < join(d).len() {
                assert(j[i] == join(d)[i]);
            } else if i == join(d).len() {
                assert(j[i] == '/');
            } else {
                assert(j[i] == l[i - join(d).len() - 1]);
            }
        }
    } else if parts.len() == 1 {
        assert(no_bad(parts[0]));
    }
}

proof fn lemma_join_nonempty(parts: Seq<Seq<char>>)
    requires
        parts.len() > 0,
        forall|k: int| 0 <= k < parts.len() ==> is_normal(#[trigger] parts[k]),
    ensures
        join(parts).len() > 0,
{
    assert(is_normal(parts[parts.len() - 1]));
    assert(is_normal(parts[0]));
}

proof fn lemma_remove_bad_id(s: Seq<char>)
    requires
        no_bad(s),
    ensures
        remove_bad(s) == s,
    decreases s.len(),
{
    if s.len() > 0 {
        let d = s.drop_last();
        assert forall|i: int| 0 <= i < d.len() implies !is_bad_char(#[trigger] d[i]) by {
            assert(d[i] == s[i]);
        }
        lemma_remove_bad_id(d);
        assert(!is_bad_char(s[s.len() - 1]));
        assert(d.push(s.last()) == s);
    }
}

proof fn lemma_remove_bad_clean(s: Seq<char>)
    ensures
        no_bad(remove_bad(s)),
    decreases s.len(),
{
    if s.len() > 0 {
        let d = s.drop_last();
        lemma_remove_bad_clean(d);
        if !is_bad_char(s.last()) {
            let r = remove_bad(d).push(s.last());
            assert forall|i: int| 0 <= i < r.len() implies !is_bad_char(#[trigger] r[i]) by {
                if i < remove_bad(d).len() {
                    assert(r[i] == remove_bad(d)[i]);
                }
            }
        }
    }
}

proof fn lemma_segments_single(b: Seq<char>)
    requires
        no_sep(b),
    ensures
        segments(b) == seq![b],
    decreases b.len(),
{
    if b.len() > 0 {
        let d = b.drop_last();
        assert(no_sep(d)) by {
            assert forall|i: int| 0 <= i < d.len() implies #[trigger] d[i] != '/' by {
                assert(d[i] == b[i]);
            }
        }
        lemma_segments_single(d);
        assert(b[b.len() - 1] != '/');
        assert(d.push(b.last()) == b);
        assert(segments(b) == seq![d].update(0, d.push(b.last())));
        assert(seq![d].update(0, d.push(b.last())) =~= seq![b]);
    } else {
        assert(b =~= Seq::<char>::empty());
    }
}

proof fn lemma_segments_concat(a: Seq<char>, b: Seq<char>)
    ensures
        segments(a + seq!['/'] + b) == segments(a) + segments(b),
    decreases b.len(),
{
    let x = a + seq!['/'] + b;
    if b.len() == 0 {
        assert(x.drop_last() == a);
        assert(x.last() == '/');
        assert(segments(a).push(Seq::<char>::empty()) == segments(a) + segments(b));
    } else {
        let bd = b.drop_last();
        lemma_segments_concat(a, bd);
        lemma_segments_nonempty(bd);
        lemma_segments_nonempty(a);
        assert(x.drop_last() == a + seq!['/'] + bd);
        assert(x.last() == b.last());
        let sa = segments(a);
        let sb = segments(bd);
        if b.last() == '/' {
            assert(segments(x) == (sa + sb).push(Seq::<char>::empty()));
            assert((sa + sb).push(Seq::<char>::empty()) == sa + sb.push(Seq::<char>::empty()));
        } else {
            let ab = sa + sb;
            assert(ab.last() == sb.last());
            assert(ab.update(ab.len() - 1, ab.last().push(b.last()))
                == sa + sb.update(sb.len() - 1, sb.last().push(b.last())));
        }
    }
}

proof fn lemma_segments_of_join(parts: Seq<Seq<char>>)
    requires
        parts.len() >= 1,
        forall|k: int| 0 <= k < parts.len() ==> no_sep(#[trigger] parts[k]),
    ensures
        segments(join(parts)) == parts,
    decreases parts.len(),
{
    if parts.len() == 1 {
        assert(no_sep(parts[0]));
        lemma_segments_single(parts[0]);
        assert(parts == seq![parts[0]]);
    } else {
        let d = parts.drop_last();
        assert forall|k: int| 0 <= k < d.len() implies no_sep(#[trigger] d[k]) by {
            assert(d[k] == parts[k]);
        }
        lemma_segments_of_join(d);
        assert(no_sep(parts[parts.len() - 1]));
        lemma_segments_single(parts.last());
        lemma_segments_concat(join(d), parts.last());
        assert(d + seq![parts.last()] == parts);
    }
}

proof fn lemma_join_of_segments(s: Seq<char>)
    requires
        no_backslash(s),
    ensures
        join(segments(s)) == s,
    decreases s.len(),
{
    if s.len() > 0 {
        let d = s.drop_last();
        assert(no_backslash(d)) by {
            assert forall|i: int| 0 <= i < d.len() implies #[trigger] d[i] != '\\' by {
                assert(d[i] == s[i]);
            }
        }
        assert(s[s.len() - 1] != '\\');
        lemma_join_of_segments(d);
        lemma_segments_nonempty(d);
        let prev = segments(d);
        if s.last() == '/' {
            let now = prev.push(Seq::<char>::empty());
            assert(now.drop_last() == prev);
            assert(join(now) == d + seq!['/'] + Seq::<char>::empty());
            assert(d + seq!['/'] + Seq::<char>::empty() == s);
        } else {
            let now = prev.update(prev.len() - 1, prev.last().push(s.last()));
            if prev.len() == 1 {
                assert(join(prev) == prev[0]);
                assert(join(now) == now[0]);
                assert(now[0] == d.push(s.last()));
                assert(d.push(s.last()) == s);
            } else {
                assert(now.drop_last() == prev.drop_last());
                assert(join(prev) == join(prev.drop_last()) + seq!['/'] + prev.last());
                assert(join(now) == join(prev.drop_last()) + seq!['/'] + prev.last().push(s.last()));
                assert(join(now) == join(prev).push(s.last()));
                assert(d.push(s.last()) == s);
            }
        }
    }
}

proof fn lemma_strip_drives(p: Seq<char>)
    ensures
        !is_drive(strip_drives(p)),
        no_sep(p) ==> no_sep(strip_drives(p)),
        no_bad(p) ==> no_bad(strip_drives(p)),
    decreases p.len(),
{
    if is_drive(p) {
        let q = p.subrange(2, p.len() as int);
        lemma_strip_drives(q);
        if no_sep(p) {
            assert forall|i: int| 0 <= i < q.len() implies !is_separator(#[trigger] q[i]) by {
                assert(q[i] == p[i + 2]);
            }
        }
        if no_bad(p) {
            assert forall|i: int| 0 <= i < q.len() implies !is_bad_char(#[trigger] q[i]) by {
                assert(q[i] == p[i + 2]);
            }
        }
    }
}

proof fn lemma_undrive(parts: Seq<Seq<char>>)
    requires
        forall|k: int| 0 <= k < parts.len() ==> is_normal(#[trigger] parts[k]) && no_sep(parts[k]) && no_bad(parts[k]),
    ensures
        forall|k: int| 0 <= k < undrive(parts).len() ==> is_normal(#[trigger] undrive(parts)[k])
            && no_sep(undrive(parts)[k]) && no_bad(undrive(parts)[k]),
        undrive(parts).len() > 0 ==> !is_drive(undrive(parts)[0]),
    decreases parts.len(),
{
    if parts.len() > 0 {
        lemma_strip_drives(parts[0]);
        if !is_normal(strip_drives(parts[0])) {
            let d = parts.drop_first();
            assert forall|k: int| 0 <= k < d.len() implies is_normal(#[trigger] d[k]) && no_sep(d[k]) && no_bad(d[k]) by {
                assert(d[k] == parts[k + 1]);
            }
            lemma_undrive(d);
        }
    }
}

proof fn lemma_undrive_id(parts: Seq<Seq<char>>)
    requires
        parts.len() > 0 ==> is_normal(parts[0]) && !is_drive(parts[0]),
    ensures
        undrive(parts) == parts,
{
    if parts.len() > 0 {
        assert(strip_drives(parts[0]) == parts[0]);
        assert(parts.update(0, parts[0]) =~= parts);
    }
}

proof fn lemma_join_no_backslash(parts: Seq<Seq<char>>)
    requires
        forall|k: int| 0 <= k < parts.len() ==> no_sep(#[trigger] parts[k]),
    ensures
        no_backslash(join(parts)),
    decreases parts.len(),
{
    if parts.len() >= 2 {
        let d = parts.drop_last();
        assert forall|k: int| 0 <= k < d.len() implies no_sep(#[trigger] d[k]) by {
            assert(d[k] == parts[k]);
        }
        lemma_join_no_backslash(d);
        let l = parts.last();
        assert(no_sep(parts[parts.len() - 1]));
        let j = join(d) + seq!['/'] + l;
        assert forall|i: int| 0 <= i < j.len() implies #[trigger] j[i] != '\\' by {
            if i < join(d).len() {
                assert(j[i] == join(d)[i]);
            } else if i == join(d).len() {
                assert(j[i] == '/');
            } else {
                assert(j[i] == l[i - join(d).len() - 1]);
                assert(!is_separator(l[i - join(d).len() - 1]));
            }
        }
    } else if parts.len() == 1 {
        assert(no_sep(parts[0]));
        assert forall|i: int| 0 <= i < parts[0].len() implies #[trigger] parts[0][i] != '\\' by {
            assert(!is_separator(parts[0][i]));
        }
    }
}

proof fn lemma_fallback_safe()
    ensures
        fallback_name().len() > 0,
        no_bad(fallback_name()),
        no_sep(fallback_name()),
        no_backslash(fallback_name()),
        is_normal(fallback_name()),
        !is_drive(fallback_name()),
{
    reveal_strlit("unnamed_sanitized_file");
    let f = fallback_name();
    assert(f.len() == 22);
    assert(f =~= seq!['u', 'n', 'n', 'a', 'm', 'e', 'd', '_', 's', 'a', 'n', 'i', 't', 'i', 'z',
        'e', 'd', '_', 'f', 'i', 'l', 'e']);
}

/// Whatever the input, the sanitized path is a safe relative path: not
/// empty, without the stripped characters, with `/` as its only separator,
/// no drive at its start, and made only of pieces that name files and
/// directories (no root, no `.` or `..`, no empty piece).
pub proof fn law_sanitized_is_safe(s: Seq<char>)
    ensures
        is_safe(sanitized(s)),
{
    let c = remove_bad(s);
    lemma_remove_bad_clean(s);
    let segs = segments(c);
    let np = normal_parts(segs);
    lemma_segments_pieces(c);
    lemma_normal_parts_from(segs);
    assert forall|k: int| 0 <= k < np.len() implies is_normal(#[trigger] np[k]) && no_sep(np[k]) && no_bad(np[k]) by {
        let j = choose|j: int| 0 <= j < segs.len() && segs[j] == np[k];
        assert(no_bad(segs[j]));
        assert(no_sep(segs[j]));
    }
    let u = undrive(np);
    lemma_undrive(np);
    lemma_join_no_bad(u);
    lemma_join_no_backslash(u);
    lemma_fallback_safe();
    if u.len() == 0 {
        assert(join(u).len() == 0);
        lemma_segments_single(fallback_name());
    } else {
        lemma_join_nonempty(u);
        lemma_segments_of_join(u);
    }
}

/// Whatever the input, the sanitized path is not empty and holds none of
/// the stripped characters.
pub proof fn law_sanitized_is_clean(s: Seq<char>)
    ensures
        sanitized(s).len() > 0,
        no_bad(sanitized(s)),
{
    law_sanitized_is_safe(s);
}

/// A path is left unchanged by the sanitizer exactly when it is already
/// a safe relative path.
pub proof fn law_sanitize_keeps_exactly_safe_paths(s: Seq<char>)
    ensures
        sanitized(s) == s <==> is_safe(s),
{
    if is_safe(s) {
        lemma_remove_bad_id(s);
        lemma_segments_nonempty(s);
        lemma_normal_parts_id(segments(s));
        lemma_undrive_id(segments(s));
        lemma_join_of_segments(s);
    }
    if sanitized(s) == s {
        law_sanitized_is_safe(s);
    }
}

/// Sanitizing twice gives the same path as sanitizing once.
pub proof fn law_sanitize_idempotent(s: Seq<char>)
    ensures
        sanitized(sanitized(s)) == sanitized(s),
{
    law_sanitized_is_safe(s);
    law_sanitize_keeps_exactly_safe_paths(sanitized(s));
}

/// The twelve characters that the sanitizer strips, written out: NUL,
/// backspace, tab, line feed, carriage return, and the bidirectional marks
/// U+202E, U+200F, U+202A to U+202D and U+202F.
pub open spec fn is_listed_strip_char(c: char) -> bool {
    c == '\u{0}' || c == '\u{8}' || c == '\u{9}' || c == '\u{A}' || c == '\u{D}' || c == '\u{202E}'
        || c == '\u{200F}' || c == '\u{202A}' || c == '\u{202B}' || c == '\u{202C}' || c == '\u{202D}'
        || c == '\u{202F}'
}

/// A path made of characters other than the twelve stripped ones (spaces,
/// letters, any printable character), with `/` as its only separator, no
/// drive at its start, and pieces that all name something, comes back
/// from the sanitizer unchanged: nothing else is removed.
pub proof fn law_sanitize_keeps_unlisted_characters(s: Seq<char>)
    requires
        s.len() > 0,
        forall|i: int| 0 <= i < s.len() ==> !is_listed_strip_char(#[trigger] s[i]) && s[i] != '\\',
        !is_drive(segments(s)[0]),
        forall|k: int| 0 <= k < segments(s).len() ==> is_normal(#[trigger] segments(s)[k]),
    ensures
        sanitized(s) == s,
{
    assert forall|i: int| 0 <= i < s.len() implies !is_bad_char(#[trigger] s[i]) by {
        assert(!is_listed_strip_char(s[i]));
    }
    assert forall|i: int| 0 <= i < s.len() implies #[trigger] s[i] != '\\' by {
        assert(s[i] != '\\');
    }
    law_sanitize_keeps_exactly_safe_paths(s);
}

/// None of the twelve stripped characters is left in a sanitized path.
pub proof fn law_sanitize_removes_listed_characters(s: Seq<char>)
    ensures
        forall|i: int| 0 <= i < sanitized(s).len() ==> !is_listed_strip_char(#[trigger] sanitized(s)[i]),
{
    law_sanitized_is_safe(s);
    assert forall|i: int| 0 <= i < sanitized(s).len() implies !is_listed_strip_char(#[trigger] sanitized(s)[i]) by {
        assert(!is_bad_char(sanitized(s)[i]));
    }
}

/// Stripping works character by character: stripping two pieces put
/// together gives their stripped forms put together.
pub proof fn law_strip_concat(a: Seq<char>, b: Seq<char>)
    ensures
        remove_bad(a + b) == remove_bad(a) + remove_bad(b),
    decreases b.len(),
{
    if b.len() == 0 {
        assert(a + b =~= a);
        assert(remove_bad(a) + remove_bad(b) =~= remove_bad(a));
    } else {
        law_strip_concat(a, b.drop_last());
        assert((a + b).drop_last() =~= a + b.drop_last());
        assert((a + b).last() == b.last());
        if !is_bad_char(b.last()) {
            assert((remove_bad(a) + remove_bad(b.drop_last())).push(b.last())
                =~= remove_bad(a) + remove_bad(b.drop_last()).push(b.last()));
        }
    }
}

/// One of the twelve listed characters is stripped; any other character
/// is kept.
pub proof fn law_strip_char(c: char)
    ensures
        is_listed_strip_char(c) ==> remove_bad(seq![c]) == Seq::<char>::empty(),
        !is_listed_strip_char(c) ==> remove_bad(seq![c]) == seq![c],
{
    assert(seq![c].drop_last() =~= Seq::<char>::empty());
    assert(seq![c].last() == c);
    assert(remove_bad(Seq::<char>::empty()) == Seq::<char>::empty());
    assert(Seq::<char>::empty().push(c) =~= seq![c]);
}

/// The character sequences held by a vector of character vectors.
pub open spec fn seq_views(v: Seq<Vec<char>>) -> Seq<Seq<char>> {
    v.map_values(|x: Vec<char>| x@)
}

/// The pieces of `segs` that are neither empty nor `.` (`..` is kept).
pub open spec fn named_parts(segs: Seq<Seq<char>>) -> Seq<Seq<char>>
    decreases segs.len(),
{
    if segs.len() == 0 {
        Seq::empty()
    } else if segs.last().len() > 0 && segs.last() != seq!['.'] {
        named_parts(segs.drop_last()).push(segs.last())
    } else {
        named_parts(segs.drop_last())
    }
}

/// A separator of the host's paths: `/`, and on Windows also `\`.
pub open spec fn is_host_separator(c: char, windows: bool) -> bool {
    c == '/' || (windows && c == '\\')
}

/// The pieces of a host path between its separators, empty pieces
/// included.
pub open spec fn host_segments(s: Seq<char>, windows: bool) -> Seq<Seq<char>>
    decreases s.len(),
{
    if s.len() == 0 {
        seq![Seq::<char>::empty()]
    } else {
        let prev = host_segments(s.drop_last(), windows);
        if is_host_separator(s.last(), windows) {
            prev.push(Seq::<char>::empty())
        } else {
            prev.update(prev.len() - 1, prev.last().push(s.last()))
        }
    }
}

/// The length of the drive prefix (such as `C:`) that a Windows path
/// starts with: 2, or 0 where there is none or the host is not Windows.
pub open spec fn drive_len(s: Seq<char>, windows: bool) -> int {
    if windows && is_drive(s) { 2 } else { 0 }
}

/// A host path after its drive prefix.
pub open spec fn after_drive(s: Seq<char>, windows: bool) -> Seq<char> {
    s.subrange(drive_len(s, windows), s.len() as int)
}

/// The components of a host path, each written as it reads: the drive
/// prefix (Windows), `/` for the root, `.` for a leading current
/// directory, `..` for a parent directory, and names; repeated separators
/// and inner `.` pieces are passed over (as `Path::components` reads them).
pub open spec fn components(s: Seq<char>, windows: bool) -> Seq<Seq<char>> {
    let r = after_drive(s, windows);
    let segs = host_segments(r, windows);
    let root = r.len() > 0 && is_host_separator(r[0], windows);
    let cur = !root && segs[0] == seq!['.'];
    (if drive_len(s, windows) == 2 { seq![s.take(2)] } else { Seq::empty() })
        + (if root { seq![seq!['/']] } else { Seq::empty() })
        + (if cur { seq![seq!['.']] } else { Seq::empty() })
        + named_parts(segs)
}

/// `base`'s components are the first components of `path`.
pub open spec fn path_starts_with(path: Seq<char>, base: Seq<char>, windows: bool) -> bool {
    let p = components(path, windows);
    let b = components(base, windows);
    b.len() <= p.len() && p.take(b.len() as int) == b
}

/// The last component of a host path where it is a name: `None` for a
/// path that ends in a root, a bare drive prefix, `.` only, or `..` (as
/// `Path::file_name` answers).
pub open spec fn file_name_spec(s: Seq<char>, windows: bool) -> Option<Seq<char>> {
    let np = named_parts(host_segments(after_drive(s, windows), windows));
    if np.len() > 0 && np.last() != seq!['.', '.'] {
        Some(np.last())
    } else {
        None
    }
}

/// The pieces of a path between separators (`/` or `\`).
pub fn split_segments(cs: &Vec<char>) -> (r: Vec<Vec<char>>)
    ensures
        seq_views(r@) == segments(cs@),
{
    let mut done: Vec<Vec<char>> = Vec::new();
    let mut cur: Vec<char> = Vec::new();
    let mut i: usize = 0;
    while i < cs.len()
        invariant
            i <= cs.len(),
            segments(cs@.take(i as int)) == seq_views(done@).push(cur@),
        decreases cs.len() - i,
    {
        let c = cs[i];
        assert(cs@.take(i + 1).drop_last() == cs@.take(i as int));
        if c == '/' || c == '\\' {
            let ghost old_done = seq_views(done@);
            let finished = cur;
            done.push(finished);
            cur = Vec::new();
            assert(seq_views(done@) == old_done.push(finished@));
        } else {
            cur.push(c);
        }
        i = i + 1;
    }
    assert(cs@.take(cs.len() as int) == cs@);
    let ghost old_done = seq_views(done@);
    let last = cur;
    done.push(last);
    assert(seq_views(done@) == old_done.push(last@));
    done
}

fn is_dot(seg: &Vec<char>) -> (r: bool)
    ensures
        r == (seg@ == seq!['.']),
{
    if seg.len() == 1 && seg[0] == '.' {
        assert(seg@ == seq!['.']);
        true
    } else {
        false
    }
}

fn is_dot_dot(seg: &Vec<char>) -> (r: bool)
    ensures
        r == (seg@ == seq!['.', '.']),
{
    if seg.len() == 2 && seg[0] == '.' && seg[1] == '.' {
        assert(seg@ == seq!['.', '.']);
        true
    } else {
        false
    }
}

fn named_parts_exec(segs: Vec<Vec<char>>) -> (r: Vec<Vec<char>>)
    ensures
        seq_views(r@) == named_parts(seq_views(segs@)),
{
    let mut r: Vec<Vec<char>> = Vec::new();
    let mut i: usize = 0;
    let mut segs = segs;
    let ghost all = seq_views(segs@);
    while i < segs.len()
        invariant
            i <= segs.len(),
            all == seq_views(segs@),
            seq_views(r@) == named_parts(all.take(i as int)),
        decreases segs.len() - i,
    {
        assert(all.take(i + 1).drop_last() == all.take(i as int));
        assert(all.take(i + 1).last() == segs@[i as int]@);
        let keep = segs[i].len() > 0 && !is_dot(&segs[i]);
        if keep {
            let ghost before = seq_views(r@);
            let seg = segs[i].clone();
            r.push(seg);
            assert(seq_views(r@) == before.push(seg@));
        }
        i = i + 1;
    }
    assert(all.take(segs.len() as int) == all);
    r
}

proof fn lemma_host_segments_nonempty(s: Seq<char>, windows: bool)
    ensures
        host_segments(s, windows).len() >= 1,
    decreases s.len(),
{
    if s.len() > 0 {
        lemma_host_segments_nonempty(s.drop_last(), windows);
    }
}

/// The pieces of a host path between its separators.
fn host_split(cs: &Vec<char>, windows: bool) -> (r: Vec<Vec<char>>)
    ensures
        seq_views(r@) == host_segments(cs@, windows),
{
    let mut done: Vec<Vec<char>> = Vec::new();
    let mut cur: Vec<char> = Vec::new();
    let mut i: usize = 0;
    while i < cs.len()
        invariant
            i <= cs.len(),
            host_segments(cs@.take(i as int), windows) == seq_views(done@).push(cur@),
        decreases cs.len() - i,
    {
        let c = cs[i];
        assert(cs@.take(i + 1).drop_last() == cs@.take(i as int));
        if c == '/' || (windows && c == '\\') {
            let ghost old_done = seq_views(done@);
            let finished = cur;
            done.push(finished);
            cur = Vec::new();
            assert(seq_views(done@) == old_done.push(finished@));
        } else {
            cur.push(c);
        }
        i = i + 1;
    }
    assert(cs@.take(cs.len() as int) == cs@);
    let ghost old_done = seq_views(done@);
    let last = cur;
    done.push(last);
    assert(seq_views(done@) == old_done.push(last@));
    done
}

/// The length of the drive prefix of a host path.
fn drive_len_exec(cs: &Vec<char>, windows: bool) -> (r: usize)
    ensures
        r == drive_len(cs@, windows),
{
    if windows && is_drive_exec(cs) { 2 } else { 0 }
}

/// The characters of `cs` from position `d` on.
fn chars_from(cs: &Vec<char>, d: usize) -> (r: Vec<char>)
    requires
        d <= cs.len(),
    ensures
        r@ == cs@.subrange(d as int, cs.len() as int),
{
    let mut r: Vec<char> = Vec::new();
    let mut j: usize = d;
    while j < cs.len()
        invariant
            d <= j <= cs.len(),
            r@ == cs@.subrange(d as int, j as int),
        decreases cs.len() - j,
    {
        r.push(cs[j]);
        assert(cs@.subrange(d as int, j + 1) == cs@.subrange(d as int, j as int).push(cs@[j as int]));
        j = j + 1;
    }
    r
}

fn components_exec(s: &str, windows: bool) -> (r: Vec<Vec<char>>)
    ensures
        seq_views(r@) == components(s@, windows),
{
    let cs = chars_of(s);
    let d = drive_len_exec(&cs, windows);
    let rest = chars_from(&cs, d);
    let segs = host_split(&rest, windows);
    proof { lemma_host_segments_nonempty(rest@, windows); }
    let root = rest.len() > 0 && (rest[0] == '/' || (windows && rest[0] == '\\'));
    let cur = !root && is_dot(&segs[0]);
    let named = named_parts_exec(segs);
    let mut r: Vec<Vec<char>> = Vec::new();
    let ghost prefix: Seq<Seq<char>> = (if d == 2 { seq![cs@.take(2)] } else { Seq::empty() })
        + (if root { seq![seq!['/']] } else { Seq::empty() })
        + (if cur { seq![seq!['.']] } else { Seq::empty() });
    if d == 2 {
        let mut drive: Vec<char> = Vec::new();
        drive.push(cs[0]);
        drive.push(cs[1]);
        assert(drive@ == cs@.take(2));
        r.push(drive);
    }
    if root {
        let mut slash: Vec<char> = Vec::new();
        slash.push('/');
        let ghost before = seq_views(r@);
        r.push(slash);
        assert(seq_views(r@) == before.push(slash@));
    }
    if cur {
        let mut dot: Vec<char> = Vec::new();
        dot.push('.');
        let ghost before = seq_views(r@);
        r.push(dot);
        assert(seq_views(r@) == before.push(dot@));
    }
    assert(seq_views(r@) == prefix);
    let mut i: usize = 0;
    while i < named.len()
        invariant
            i <= named.len(),
            seq_views(r@) == prefix + seq_views(named@).take(i as int),
        decreases named.len() - i,
    {
        let ghost before = seq_views(r@);
        let seg = named[i].clone();
        r.push(seg);
        assert(seq_views(named@).take(i + 1) == seq_views(named@).take(i as int).push(seg@));
        assert(seq_views(r@) == before.push(seg@));
        i = i + 1;
    }
    assert(seq_views(named@).take(named.len() as int) == seq_views(named@));
    r
}

fn chars_equal(a: &Vec<char>, b: &Vec<char>) -> (r: bool)
    ensures
        r == (a@ == b@),
{
    if a.len() != b.len() {
        return false;
    }
    let mut i: usize = 0;
    while i < a.len()
        invariant
            a.len() == b.len(),
            i <= a.len(),
            forall|k: int| 0 <= k < i ==> a@[k] == b@[k],
        decreases a.len() - i,
    {
        if a[i] != b[i] {
            return false;
        }
        i = i + 1;
    }
    assert(a@ == b@);
    true
}

/// Whether `base`'s components are the first components of `path`,
/// comparing whole components (as `Path::starts_with` does), on a Windows
/// host or another.
pub fn path_starts_with_exec(path: &str, base: &str, windows: bool) -> (r: bool)
    ensures
        r == path_starts_with(path@, base@, windows),
{
    let p = components_exec(path, windows);
    let b = components_exec(base, windows);
    if b.len() > p.len() {
        return false;
    }
    let mut i: usize = 0;
    while i < b.len()
        invariant
            b.len() <= p.len(),
            i <= b.len(),
            seq_views(p@) == components(path@, windows),
            seq_views(b@) == components(base@, windows),
            forall|k: int| 0 <= k < i ==> seq_views(p@)[k] == seq_views(b@)[k],
        decreases b.len() - i,
    {
        if !chars_equal(&p[i], &b[i]) {
            assert(seq_views(p@)[i as int] == p@[i as int]@);
            assert(seq_views(b@)[i as int] == b@[i as int]@);
            assert(seq_views(p@).take(b.len() as int)[i as int] != seq_views(b@)[i as int]);
            assert(seq_views(p@).take(b.len() as int) != seq_views(b@));
            return false;
        }
        i = i + 1;
    }
    assert(seq_views(p@).take(b.len() as int) =~= seq_views(b@));
    true
}

/// The last component of a host path where it is a name (as
/// `Path::file_name` gives it), on a Windows host or another.
pub fn file_name(path: &str, windows: bool) -> (r: Option<String>)
    ensures
        match (r, file_name_spec(path@, windows)) {
            (Some(n), Some(m)) => n@ == m,
            (None, None) => true,
            _ => false,
        },
{
    let cs = chars_of(path);
    let d = drive_len_exec(&cs, windows);
    let rest = chars_from(&cs, d);
    let segs = host_split(&rest, windows);
    let named = named_parts_exec(segs);
    if named.len() > 0 && !is_dot_dot(&named[named.len() - 1]) {
        Some(string_of(named[named.len() - 1].as_slice()))
    } else {
        None
    }
}

proof fn lemma_host_segments_single(b: Seq<char>, windows: bool)
    requires
        forall|i: int| 0 <= i < b.len() ==> !is_host_separator(#[trigger] b[i], windows),
    ensures
        host_segments(b, windows) == seq![b],
    decreases b.len(),
{
    if b.len() > 0 {
        let d = b.drop_last();
        assert forall|i: int| 0 <= i < d.len() implies !is_host_separator(#[trigger] d[i], windows) by {
            assert(d[i] == b[i]);
        }
        lemma_host_segments_single(d, windows);
        assert(!is_host_separator(b[b.len() - 1], windows));
        assert(d.push(b.last()) == b);
        assert(seq![d].update(0, d.push(b.last())) =~= seq![b]);
    } else {
        assert(b =~= Seq::<char>::empty());
    }
}

proof fn lemma_host_segments_concat(a: Seq<char>, b: Seq<char>, windows: bool)
    ensures
        host_segments(a + seq!['/'] + b, windows) == host_segments(a, windows) + host_segments(b, windows),
    decreases b.len(),
{
    let x = a + seq!['/'] + b;
    if b.len() == 0 {
        assert(x.drop_last() == a);
        assert(x.last() == '/');
        assert(host_segments(a, windows).push(Seq::<char>::empty()) == host_segments(a, windows) + host_segments(
            b,
            windows,
        ));
    } else {
        let bd = b.drop_last();
        lemma_host_segments_concat(a, bd, windows);
        lemma_host_segments_nonempty(bd, windows);
        lemma_host_segments_nonempty(a, windows);
        assert(x.drop_last() == a + seq!['/'] + bd);
        assert(x.last() == b.last());
        let sa = host_segments(a, windows);
        let sb = host_segments(bd, windows);
        if is_host_separator(b.last(), windows) {
            assert((sa + sb).push(Seq::<char>::empty()) == sa + sb.push(Seq::<char>::empty()));
        } else {
            let ab = sa + sb;
            assert(ab.last() == sb.last());
            assert(ab.update(ab.len() - 1, ab.last().push(b.last()))
                == sa + sb.update(sb.len() - 1, sb.last().push(b.last())));
        }
    }
}

/// The file name of a path that ends with `/` and a name is that name,
/// whatever comes before it, on Windows or not: a name holding a colon
/// (`a:b.zip`) included.
pub proof fn law_file_name_of_joined_path(p: Seq<char>, n: Seq<char>, windows: bool)
    requires
        n.len() > 0,
        n != seq!['.'],
        n != seq!['.', '.'],
        forall|i: int| 0 <= i < n.len() ==> !is_host_separator(#[trigger] n[i], windows),
    ensures
        file_name_spec(p + seq!['/'] + n, windows) == Some(n),
{
    let s = p + seq!['/'] + n;
    let d = drive_len(s, windows);
    let r = after_drive(s, windows);
    let p2 = p.subrange(d, p.len() as int);
    if d == 2 {
        assert(p.len() >= 2) by {
            if p.len() < 2 {
                assert(s[1] == if p.len() == 1 { '/' } else { n[0] });
                if p.len() == 0 {
                    assert(s[0] == '/');
                }
            }
        }
    }
    assert(r =~= p2 + seq!['/'] + n);
    lemma_host_segments_concat(p2, n, windows);
    lemma_host_segments_single(n, windows);
    let segs = host_segments(r, windows);
    assert(segs.last() == n);
    assert(segs.drop_last() =~= host_segments(p2, windows));
}

/// A name put under a directory adds exactly that name to the directory's
/// components, so the path starts with the directory (a directory that is
/// a bare Windows drive prefix aside).
pub proof fn law_components_of_child(root: Seq<char>, n: Seq<char>, windows: bool)
    requires
        after_drive(root, windows).len() > 0,
        n.len() > 0,
        n != seq!['.'],
        forall|i: int| 0 <= i < n.len() ==> !is_host_separator(#[trigger] n[i], windows),
    ensures
        components(root + seq!['/'] + n, windows) == components(root, windows).push(n),
        path_starts_with(root + seq!['/'] + n, root, windows),
{
    let s = root + seq!['/'] + n;
    let d = drive_len(root, windows);
    assert(drive_len(s, windows) == d) by {
        if root.len() >= 2 {
            assert(s[0] == root[0]);
            assert(s[1] == root[1]);
        } else if root.len() == 1 {
            assert(s[1] == '/');
        }
    }
    let r = after_drive(root, windows);
    assert(after_drive(s, windows) =~= r + seq!['/'] + n);
    lemma_host_segments_concat(r, n, windows);
    lemma_host_segments_single(n, windows);
    lemma_host_segments_nonempty(r, windows);
    let rs = after_drive(s, windows);
    assert(rs[0] == r[0]);
    let segs = host_segments(rs, windows);
    let base = host_segments(r, windows);
    assert(segs == base + seq![n]);
    assert(segs[0] == base[0]);
    assert(segs.drop_last() =~= base);
    assert(named_parts(segs) == named_parts(base).push(n));
    if d == 2 {
        assert(s.take(2) =~= root.take(2));
    }
    let cs = components(s, windows);
    let cr = components(root, windows);
    assert(cs =~= cr.push(n));
    assert(cs.take(cr.len() as int) =~= cr);
}

} // verus!
